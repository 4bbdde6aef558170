//! The reconciliation engine: determine which files of a collection are
//! missing which target digests, repair the ones whose bytes are reachable
//! on a currently mounted partition, and report the files that must wait for
//! media to reappear. Reading bytes and computing digests are the caller's;
//! the decisions and the catalog writes are verified here.

use vstd::prelude::*;

use crate::catalog::Catalog;
use crate::catalog::CatalogV;
use crate::catalog::FileV;
use crate::catalog::NewFileHash;
use crate::catalog::Partition;
use crate::catalog::str_views;
use crate::error::Error;
use crate::hash_utils::ComputedHash;
use crate::hash_utils::HashAlgorithm;
use crate::ids::Uid;
use crate::strutil::lemma_filter_empty;
use crate::strutil::lemma_filter_step;

verus! {

// ---------------------------------------------------------------------------
// What a file still needs, and what is reachable
// ---------------------------------------------------------------------------

/// Whether some target algorithm has no recorded digest for the file.
pub open spec fn file_needs(c: CatalogV, fid: Uid, target: Seq<HashAlgorithm>) -> bool {
    exists|k: int| 0 <= k < target.len() && !c.has_hash(fid, #[trigger] target[k])
}

pub open spec fn file_has_placement(c: CatalogV, fid: Uid) -> bool {
    exists|i: int| 0 <= i < c.placements.len() && (#[trigger] c.placements[i]).file_id == fid
}

/// Whether some partition holding a replica of the file is currently
/// mounted.
pub open spec fn reachable(c: CatalogV, fid: Uid, mounted: Seq<Seq<char>>) -> bool {
    exists|i: int, j: int|
        0 <= i < c.placements.len() && (#[trigger] c.placements[i]).file_id == fid && 0 <= j
            < c.partitions.len() && (#[trigger] c.partitions[j]).id
            == c.placements[i].partition_id && mounted.contains(c.partitions[j].uuid)
}

/// The files a reconciliation pass will repair now.
pub open spec fn repair_pred(
    c: CatalogV,
    coll: Uid,
    target: Seq<HashAlgorithm>,
    mounted: Seq<Seq<char>>,
) -> spec_fn(FileV) -> bool {
    |f: FileV|
        f.collection_id == coll && file_needs(c, f.id, target) && file_has_placement(c, f.id)
            && reachable(c, f.id, mounted)
}

/// The files a reconciliation pass must skip: they need digests and hold a
/// replica somewhere, but no holding partition is mounted.
pub open spec fn skip_pred(
    c: CatalogV,
    coll: Uid,
    target: Seq<HashAlgorithm>,
    mounted: Seq<Seq<char>>,
) -> spec_fn(FileV) -> bool {
    |f: FileV|
        f.collection_id == coll && file_needs(c, f.id, target) && file_has_placement(c, f.id)
            && !reachable(c, f.id, mounted)
}

fn has_hash_row(c: &Catalog, fid: &Uid, a: HashAlgorithm) -> (r: bool)
    ensures
        r == c@.has_hash(*fid, a),
{
    let mut i: usize = 0;
    while i < c.hashes.len()
        invariant
            0 <= i <= c.hashes.len(),
            forall|j: int|
                0 <= j < i ==> !((#[trigger] c@.hashes[j]).file_id == *fid
                    && c@.hashes[j].hash_algorithm == a),
        decreases c.hashes.len() - i,
    {
        if c.hashes[i].file_id.value == fid.value && c.hashes[i].hash_algorithm == a {
            assert((c@.hashes[i as int]).file_id == *fid);
            return true;
        }
        i = i + 1;
    }
    false
}

/// The target algorithms the file still lacks, each once, in target order.
fn missing_list(c: &Catalog, fid: &Uid, target: &Vec<HashAlgorithm>) -> (r: Vec<HashAlgorithm>)
    ensures
        forall|x: int, y: int| 0 <= x < y < r@.len() ==> r@[x] != r@[y],
        forall|a: HashAlgorithm|
            r@.contains(a) <==> (target@.contains(a) && !c@.has_hash(*fid, a)),
        r@.len() > 0 <==> file_needs(c@, *fid, target@),
{
    let mut r: Vec<HashAlgorithm> = Vec::new();
    let mut i: usize = 0;
    while i < target.len()
        invariant
            0 <= i <= target.len(),
            forall|x: int, y: int| 0 <= x < y < r@.len() ==> r@[x] != r@[y],
            forall|a: HashAlgorithm|
                r@.contains(a) <==> (exists|k: int|
                    0 <= k < i && #[trigger] target@[k] == a && !c@.has_hash(*fid, a)),
        decreases target.len() - i,
    {
        let a = target[i];
        if !has_hash_row(c, fid, a) {
            let mut seen = false;
            let mut k: usize = 0;
            while k < r.len()
                invariant
                    0 <= k <= r.len(),
                    seen == exists|j: int| 0 <= j < k && #[trigger] r@[j] == a,
                decreases r.len() - k,
            {
                if r[k] == a {
                    seen = true;
                }
                k = k + 1;
            }
            assert(seen == r@.contains(a));
            if !seen {
                let ghost pre = r@;
                r.push(a);
                proof {
                    assert forall|b: HashAlgorithm| r@.contains(b) implies (exists|k2: int|
                        0 <= k2 < i + 1 && #[trigger] target@[k2] == b && !c@.has_hash(
                            *fid,
                            b,
                        )) by {
                        let w = choose|w: int| 0 <= w < r@.len() && r@[w] == b;
                        if w < pre.len() {
                            assert(pre.contains(b)) by {
                                assert(pre[w] == b);
                            }
                        } else {
                            assert(b == a);
                            assert(target@[i as int] == a);
                        }
                    }
                    assert forall|b: HashAlgorithm|
                        (exists|k2: int|
                            0 <= k2 < i + 1 && #[trigger] target@[k2] == b && !c@.has_hash(
                                *fid,
                                b,
                            )) implies r@.contains(b) by {
                        let k2 = choose|k2: int|
                            0 <= k2 < i + 1 && #[trigger] target@[k2] == b && !c@.has_hash(*fid, b);
                        if k2 < i {
                            assert(pre.contains(b));
                            let w = choose|w: int| 0 <= w < pre.len() && pre[w] == b;
                            assert(r@[w] == b);
                        } else {
                            assert(r@[pre.len() as int] == b);
                        }
                    }
                }
            }
        }
        proof {
            assert forall|b: HashAlgorithm| r@.contains(b) implies (exists|k2: int|
                0 <= k2 < i + 1 && #[trigger] target@[k2] == b && !c@.has_hash(*fid, b)) by {
                let k2 = choose|k2: int|
                    0 <= k2 < i && #[trigger] target@[k2] == b && !c@.has_hash(*fid, b);
            }
        }
        i = i + 1;
    }
    proof {
        assert forall|a: HashAlgorithm| r@.contains(a) implies (target@.contains(a)
            && !c@.has_hash(*fid, a)) by {
            let k = choose|k: int| 0 <= k < target@.len() && #[trigger] target@[k] == a
                && !c@.has_hash(*fid, a);
        }
        if r@.len() > 0 {
            assert(r@.contains(r@[0]));
        }
        if file_needs(c@, *fid, target@) {
            let k = choose|k: int|
                0 <= k < target@.len() && !c@.has_hash(*fid, #[trigger] target@[k]);
            assert(target@.contains(target@[k]));
            assert(r@.contains(target@[k]));
        }
    }
    r
}

/// The filesystem UUID of some mounted partition holding a replica of the
/// file, when any is mounted.
fn find_mounted_placement(c: &Catalog, fid: &Uid, mounted: &Vec<String>) -> (r: Option<String>)
    requires
        c@.wf(),
    ensures
        match r {
            Some(u) => str_views(mounted@).contains(u@) && (exists|i: int, j: int|
                0 <= i < c@.placements.len() && (#[trigger] c@.placements[i]).file_id == *fid && 0
                    <= j < c@.partitions.len() && (#[trigger] c@.partitions[j]).id
                    == c@.placements[i].partition_id && c@.partitions[j].uuid == u@),
            None => !reachable(c@, *fid, str_views(mounted@)),
        },
{
    let ghost gmounted = str_views(mounted@);
    let mut i: usize = 0;
    while i < c.placements.len()
        invariant
            0 <= i <= c.placements.len(),
            c@.wf(),
            gmounted == str_views(mounted@),
            forall|pi: int, pj: int|
                0 <= pi < i && (#[trigger] c@.placements[pi]).file_id == *fid && 0 <= pj
                    < c@.partitions.len() && (#[trigger] c@.partitions[pj]).id
                    == c@.placements[pi].partition_id ==> !gmounted.contains(
                    c@.partitions[pj].uuid,
                ),
        decreases c.placements.len() - i,
    {
        if c.placements[i].file_id.value == fid.value {
            let pid = c.placements[i].partition_id;
            assert(pid == (c@.placements[i as int]).partition_id);
            assert(c@.has_partition(pid));
            let p = match Partition::for_id(c, &pid) {
                Some(p) => p,
                None => {
                    proof {
                        assert(false);
                    }
                    unreached()
                },
            };
            let mut m = false;
            let mut mk: usize = 0;
            while mk < mounted.len()
                invariant
                    0 <= mk <= mounted.len(),
                    gmounted == str_views(mounted@),
                    m == exists|j: int| 0 <= j < mk && #[trigger] gmounted[j] == p@.uuid,
                decreases mounted.len() - mk,
            {
                if mounted[mk] == p.uuid {
                    assert(gmounted[mk as int] == p@.uuid);
                    m = true;
                }
                mk = mk + 1;
            }
            assert(m == gmounted.contains(p@.uuid));
            if m {
                proof {
                    let w = choose|w: int|
                        0 <= w < c@.partitions.len() && (#[trigger] c@.partitions[w]) == p@;
                    assert(c@.partitions[w].id == pid);
                }
                return Some(p.uuid);
            }
            proof {
                let w = choose|w: int|
                    0 <= w < c@.partitions.len() && (#[trigger] c@.partitions[w]) == p@;
                assert forall|pj: int|
                    0 <= pj < c@.partitions.len() && (#[trigger] c@.partitions[pj]).id
                        == pid implies !gmounted.contains(c@.partitions[pj].uuid) by {
                    assert(pj == w || c@.partitions[pj].id != c@.partitions[w].id);
                }
            }
        }
        i = i + 1;
    }
    proof {
        if reachable(c@, *fid, gmounted) {
            let (pi, pj) = choose|pi: int, pj: int|
                0 <= pi < c@.placements.len() && (#[trigger] c@.placements[pi]).file_id == *fid
                    && 0 <= pj < c@.partitions.len() && (#[trigger] c@.partitions[pj]).id
                    == c@.placements[pi].partition_id && gmounted.contains(c@.partitions[pj].uuid);
            assert(!gmounted.contains(c@.partitions[pj].uuid));
        }
    }
    None
}

/// Whether any file of the collection is missing a digest for one of the
/// target algorithms; nothing needs doing when this is false.
pub fn is_sync_hash_needed(c: &Catalog, algos: &Vec<HashAlgorithm>, collection_id: &Uid) -> (r:
    bool)
    ensures
        r <==> exists|i: int|
            0 <= i < c@.files.len() && (#[trigger] c@.files[i]).collection_id == *collection_id
                && file_needs(c@, c@.files[i].id, algos@),
{
    let mut i: usize = 0;
    while i < c.files.len()
        invariant
            0 <= i <= c.files.len(),
            forall|j: int|
                0 <= j < i ==> !((#[trigger] c@.files[j]).collection_id == *collection_id
                    && file_needs(c@, c@.files[j].id, algos@)),
        decreases c.files.len() - i,
    {
        if c.files[i].collection_id.value == collection_id.value {
            let fid = c.files[i].id;
            assert(fid == (c@.files[i as int]).id);
            let missing = missing_list(c, &fid, algos);
            if missing.len() > 0 {
                assert((c@.files[i as int]).collection_id == *collection_id);
                return true;
            }
        }
        i = i + 1;
    }
    false
}

// ---------------------------------------------------------------------------
// The plan: what to repair now, what must wait
// ---------------------------------------------------------------------------

/// One reachable file to repair: where its bytes are and which digests to
/// compute.
#[derive(Debug)]
pub struct RepairItem {
    pub file_id: Uid,
    pub file_path: String,
    pub partition_uuid: String,
    pub missing: Vec<HashAlgorithm>,
}

/// The outcome of planning one reconciliation pass.
#[derive(Debug)]
pub struct SyncPlan {
    pub repairs: Vec<RepairItem>,
    pub skipped_files: u64,
    pub skipped_partition_ids: Vec<Uid>,
}

/// What one planned repair item promises about its file.
pub open spec fn repair_item_ok(
    c: CatalogV,
    it: RepairItem,
    f: FileV,
    algos: Seq<HashAlgorithm>,
    mounted: Seq<Seq<char>>,
) -> bool {
    &&& it.file_id == f.id
    &&& it.file_path@ == f.path
    &&& mounted.contains(it.partition_uuid@)
    &&& (exists|i: int, j: int|
        0 <= i < c.placements.len() && (#[trigger] c.placements[i]).file_id == f.id && 0 <= j
            < c.partitions.len() && (#[trigger] c.partitions[j]).id
            == c.placements[i].partition_id && c.partitions[j].uuid == it.partition_uuid@)
    &&& (forall|x: int, y: int| 0 <= x < y < it.missing@.len() ==> it.missing@[x] != it.missing@[y])
    &&& (forall|a: HashAlgorithm|
        it.missing@.contains(a) <==> (algos.contains(a) && !c.has_hash(f.id, a)))
}

pub open spec fn repair_items_ok(
    c: CatalogV,
    items: Seq<RepairItem>,
    filt: Seq<FileV>,
    algos: Seq<HashAlgorithm>,
    mounted: Seq<Seq<char>>,
) -> bool {
    &&& items.len() == filt.len()
    &&& forall|k: int|
        0 <= k < items.len() ==> repair_item_ok(c, #[trigger] items[k], filt[k], algos, mounted)
}

proof fn lemma_repair_items_push(
    c: CatalogV,
    items: Seq<RepairItem>,
    filt: Seq<FileV>,
    it: RepairItem,
    f: FileV,
    algos: Seq<HashAlgorithm>,
    mounted: Seq<Seq<char>>,
)
    requires
        repair_items_ok(c, items, filt, algos, mounted),
        repair_item_ok(c, it, f, algos, mounted),
    ensures
        repair_items_ok(c, items.push(it), filt.push(f), algos, mounted),
{
    let ni = items.push(it);
    let nf = filt.push(f);
    assert forall|k: int| 0 <= k < ni.len() implies repair_item_ok(
        c,
        #[trigger] ni[k],
        nf[k],
        algos,
        mounted,
    ) by {
        if k < items.len() {
            assert(ni[k] == items[k]);
            assert(nf[k] == filt[k]);
        } else {
            assert(ni[k] == it);
            assert(nf[k] == f);
        }
    }
}

/// Plan a reconciliation pass: every file of the collection that is missing
/// target digests and holds a replica is either scheduled for repair on a
/// mounted partition or counted as skipped, with the partitions whose
/// presence would unblock it collected.
#[verifier::rlimit(100)]
pub fn plan_sync_hashes(
    c: &Catalog,
    algos: &Vec<HashAlgorithm>,
    collection_id: &Uid,
    mounted: &Vec<String>,
) -> (plan: SyncPlan)
    requires
        c@.wf(),
    ensures
        ({
            let rp = repair_pred(c@, *collection_id, algos@, str_views(mounted@));
            let sp = skip_pred(c@, *collection_id, algos@, str_views(mounted@));
            &&& repair_items_ok(c@, plan.repairs@, c@.files.filter(rp), algos@, str_views(
                mounted@,
            ))
            &&& plan.skipped_files == c@.files.filter(sp).len()
            &&& (forall|id: Uid|
                plan.skipped_partition_ids@.contains(id) <==> (exists|fi: int, pi: int|
                    0 <= fi < c@.files.len() && sp(#[trigger] c@.files[fi]) && 0 <= pi
                        < c@.placements.len() && (#[trigger] c@.placements[pi]).file_id
                        == c@.files[fi].id && c@.placements[pi].partition_id == id))
            &&& (forall|x: int, y: int|
                0 <= x < y < plan.skipped_partition_ids@.len()
                    ==> plan.skipped_partition_ids@[x] != plan.skipped_partition_ids@[y])
        }),
{
    let ghost gmounted = str_views(mounted@);
    let ghost rp = repair_pred(c@, *collection_id, algos@, gmounted);
    let ghost sp = skip_pred(c@, *collection_id, algos@, gmounted);
    let mut repairs: Vec<RepairItem> = Vec::new();
    let mut skipped_files: u64 = 0;
    let mut skids: Vec<Uid> = Vec::new();
    proof {
        lemma_filter_empty(c@.files.subrange(0, 0), rp);
        lemma_filter_empty(c@.files.subrange(0, 0), sp);
    }
    let mut i: usize = 0;
    while i < c.files.len()
        invariant
            0 <= i <= c.files.len(),
            c@.wf(),
            gmounted == str_views(mounted@),
            rp == repair_pred(c@, *collection_id, algos@, gmounted),
            sp == skip_pred(c@, *collection_id, algos@, gmounted),
            repair_items_ok(
                c@,
                repairs@,
                c@.files.subrange(0, i as int).filter(rp),
                algos@,
                gmounted,
            ),
            skipped_files == c@.files.subrange(0, i as int).filter(sp).len(),
            skipped_files <= i,
            forall|id: Uid|
                skids@.contains(id) <==> (exists|fi: int, pi: int|
                    0 <= fi < i && sp(#[trigger] c@.files[fi]) && 0 <= pi < c@.placements.len()
                        && (#[trigger] c@.placements[pi]).file_id == c@.files[fi].id
                        && c@.placements[pi].partition_id == id),
            forall|x: int, y: int| 0 <= x < y < skids@.len() ==> skids@[x] != skids@[y],
        decreases c.files.len() - i,
    {
        proof {
            lemma_filter_step(c@.files, rp, i as int);
            lemma_filter_step(c@.files, sp, i as int);
        }
        let f = &c.files[i];
        let ghost fv = c@.files[i as int];
        let mut is_repair = false;
        let mut is_skip = false;
        if f.collection_id.value == collection_id.value {
            let fid = f.id;
            assert(fid == fv.id);
            let missing = missing_list(c, &fid, algos);
            let ghost gmissing = missing@;
            if missing.len() > 0 {
                assert(file_needs(c@, fv.id, algos@));
                let mut placed = false;
                let mut pk: usize = 0;
                while pk < c.placements.len()
                    invariant
                        0 <= pk <= c.placements.len(),
                        fid == fv.id,
                        placed == exists|j: int|
                            0 <= j < pk && (#[trigger] c@.placements[j]).file_id == fv.id,
                    decreases c.placements.len() - pk,
                {
                    if c.placements[pk].file_id.value == fid.value {
                        assert((c@.placements[pk as int]).file_id == fv.id);
                        placed = true;
                    }
                    pk = pk + 1;
                }
                assert(placed == file_has_placement(c@, fv.id));
                if placed {
                    match find_mounted_placement(c, &fid, mounted) {
                        Some(u) => {
                            assert(reachable(c@, fv.id, gmounted));
                            assert(rp(fv));
                            is_repair = true;
                            let ghost gu = u@;
                            let item = RepairItem {
                                file_id: fid,
                                file_path: f.path.clone(),
                                partition_uuid: u,
                                missing,
                            };
                            let ghost itemval = item;
                            let ghost pre_rep = repairs@;
                            repairs.push(item);
                            proof {
                                assert(repairs@ == pre_rep.push(itemval));
                                assert(itemval.file_id == fv.id);
                                assert(itemval.file_path@ == fv.path);
                                assert(itemval.partition_uuid@ == gu);
                                assert(itemval.missing@ == gmissing);
                                let filt_new = c@.files.subrange(0, i + 1).filter(rp);
                                let filt_old = c@.files.subrange(0, i as int).filter(rp);
                                assert(filt_new == filt_old.push(fv));
                                assert(repair_item_ok(c@, itemval, fv, algos@, gmounted));
                                lemma_repair_items_push(
                                    c@,
                                    pre_rep,
                                    filt_old,
                                    itemval,
                                    fv,
                                    algos@,
                                    gmounted,
                                );
                            }
                        },
                        None => {
                            assert(!reachable(c@, fv.id, gmounted));
                            assert(sp(fv));
                            is_skip = true;
                            skipped_files = skipped_files + 1;
                            // collect the partitions that would unblock this file
                            let mut pj: usize = 0;
                            while pj < c.placements.len()
                                invariant
                                    0 <= pj <= c.placements.len(),
                                    fid == fv.id,
                                    sp == skip_pred(c@, *collection_id, algos@, gmounted),
                                    sp(fv),
                                    fv == c@.files[i as int],
                                    0 <= i < c@.files.len(),
                                    forall|id: Uid|
                                        skids@.contains(id) <==> ((exists|fi: int, pi: int|
                                            0 <= fi < i && sp(#[trigger] c@.files[fi]) && 0 <= pi
                                                < c@.placements.len() && (#[trigger] c@.placements[
                                            pi]).file_id == c@.files[fi].id && c@.placements[
                                            pi].partition_id == id) || (exists|pi: int|
                                            0 <= pi < pj && (#[trigger] c@.placements[pi]).file_id
                                                == fv.id && c@.placements[pi].partition_id == id)),
                                    forall|x: int, y: int|
                                        0 <= x < y < skids@.len() ==> skids@[x] != skids@[y],
                                decreases c.placements.len() - pj,
                            {
                                let ghost pre_formula = |id: Uid| (exists|fi: int, pi: int|
                                    0 <= fi < i && sp(#[trigger] c@.files[fi]) && 0 <= pi
                                        < c@.placements.len() && (#[trigger] c@.placements[
                                    pi]).file_id == c@.files[fi].id && c@.placements[
                                    pi].partition_id == id) || (exists|pi: int|
                                    0 <= pi < pj && (#[trigger] c@.placements[pi]).file_id
                                        == fv.id && c@.placements[pi].partition_id == id);
                                if c.placements[pj].file_id.value == fid.value {
                                    let pid = c.placements[pj].partition_id;
                                    assert(pid == (c@.placements[pj as int]).partition_id);
                                    assert((c@.placements[pj as int]).file_id == fv.id);
                                    let mut seen = false;
                                    let mut sk: usize = 0;
                                    while sk < skids.len()
                                        invariant
                                            0 <= sk <= skids.len(),
                                            seen == exists|j: int|
                                                0 <= j < sk && #[trigger] skids@[j] == pid,
                                        decreases skids.len() - sk,
                                    {
                                        if skids[sk].value == pid.value {
                                            seen = true;
                                        }
                                        sk = sk + 1;
                                    }
                                    assert(seen == skids@.contains(pid));
                                    let ghost pre_sk = skids@;
                                    if !seen {
                                        skids.push(pid);
                                        proof {
                                            assert(skids@ == pre_sk.push(pid));
                                            assert forall|id: Uid| skids@.contains(id) implies (
                                            pre_sk.contains(id) || id == pid) by {
                                                let w = choose|w: int|
                                                    0 <= w < skids@.len() && skids@[w] == id;
                                                if w < pre_sk.len() {
                                                    assert(pre_sk[w] == id);
                                                }
                                            }
                                            assert forall|id: Uid| pre_sk.contains(id)
                                                implies skids@.contains(id) by {
                                                let w = choose|w: int|
                                                    0 <= w < pre_sk.len() && pre_sk[w] == id;
                                                assert(skids@[w] == id);
                                            }
                                            assert(skids@.contains(pid)) by {
                                                assert(skids@[pre_sk.len() as int] == pid);
                                            }
                                        }
                                    }
                                    proof {
                                        assert forall|id: Uid| skids@.contains(id) implies (
                                        pre_formula(id) || id == pid) by {
                                            if pre_sk.contains(id) {
                                            }
                                        }
                                        assert forall|id: Uid| (pre_formula(id) || id
                                            == pid) implies skids@.contains(id) by {
                                            if id == pid {
                                            } else {
                                                assert(pre_sk.contains(id));
                                                if !seen {
                                                    let w = choose|w: int|
                                                        0 <= w < pre_sk.len() && pre_sk[w] == id;
                                                    assert(skids@[w] == id);
                                                }
                                            }
                                        }
                                        assert forall|id: Uid| skids@.contains(id) implies ((exists|
                                        fi: int, pi: int|
                                            0 <= fi < i && sp(#[trigger] c@.files[fi]) && 0 <= pi
                                                < c@.placements.len() && (#[trigger] c@.placements[
                                            pi]).file_id == c@.files[fi].id && c@.placements[
                                            pi].partition_id == id) || (exists|pi: int|
                                            0 <= pi < pj + 1 && (#[trigger] c@.placements[
                                            pi]).file_id == fv.id && c@.placements[
                                            pi].partition_id == id)) by {
                                            if id == pid {
                                                assert((c@.placements[pj as int]).file_id
                                                    == fv.id && c@.placements[
                                                pj as int].partition_id == id);
                                            }
                                        }
                                        assert forall|id: Uid| ((exists|fi: int, pi: int|
                                            0 <= fi < i && sp(#[trigger] c@.files[fi]) && 0 <= pi
                                                < c@.placements.len() && (#[trigger] c@.placements[
                                            pi]).file_id == c@.files[fi].id && c@.placements[
                                            pi].partition_id == id) || (exists|pi: int|
                                            0 <= pi < pj + 1 && (#[trigger] c@.placements[
                                            pi]).file_id == fv.id && c@.placements[
                                            pi].partition_id == id)) implies skids@.contains(
                                            id,
                                        ) by {
                                            if pre_formula(id) {
                                            } else {
                                                assert(id == pid);
                                            }
                                        }
                                    }
                                } else {
                                    proof {
                                        assert forall|id: Uid|
                                            #![trigger skids@.contains(id)]
                                            skids@.contains(id) <==> ((exists|fi: int, pi: int|
                                                0 <= fi < i && sp(#[trigger] c@.files[fi]) && 0
                                                    <= pi < c@.placements.len() && (
                                                #[trigger] c@.placements[pi]).file_id
                                                    == c@.files[fi].id && c@.placements[
                                                pi].partition_id == id) || (exists|pi: int|
                                                0 <= pi < pj + 1 && (#[trigger] c@.placements[
                                                pi]).file_id == fv.id && c@.placements[
                                                pi].partition_id == id)) by {
                                            if skids@.contains(id) {
                                                assert(pre_formula(id));
                                            }
                                            if !skids@.contains(id) {
                                                assert(!pre_formula(id));
                                                if exists|pi: int|
                                                    0 <= pi < pj + 1 && (#[trigger] c@.placements[
                                                    pi]).file_id == fv.id && c@.placements[
                                                    pi].partition_id == id {
                                                    let pi = choose|pi: int|
                                                        0 <= pi < pj + 1 && (
                                                        #[trigger] c@.placements[pi]).file_id
                                                            == fv.id && c@.placements[
                                                        pi].partition_id == id;
                                                    assert(pi == pj);
                                                    assert((c@.placements[pj as int]).file_id
                                                        != fv.id);
                                                }
                                            }
                                        }
                                    }
                                }
                                pj = pj + 1;
                            }
                            proof {
                                assert forall|id: Uid| skids@.contains(id) implies (exists|
                                fi: int, pi: int|
                                    0 <= fi < i + 1 && sp(#[trigger] c@.files[fi]) && 0 <= pi
                                        < c@.placements.len() && (#[trigger] c@.placements[
                                    pi]).file_id == c@.files[fi].id && c@.placements[
                                    pi].partition_id == id) by {
                                }
                                assert forall|id: Uid| (exists|fi: int, pi: int|
                                    0 <= fi < i + 1 && sp(#[trigger] c@.files[fi]) && 0 <= pi
                                        < c@.placements.len() && (#[trigger] c@.placements[
                                    pi]).file_id == c@.files[fi].id && c@.placements[
                                    pi].partition_id == id) implies skids@.contains(id) by {
                                    let (fi, pi) = choose|fi: int, pi: int|
                                        0 <= fi < i + 1 && sp(#[trigger] c@.files[fi]) && 0 <= pi
                                            < c@.placements.len() && (#[trigger] c@.placements[
                                        pi]).file_id == c@.files[fi].id && c@.placements[
                                        pi].partition_id == id;
                                    if fi == i {
                                        assert(c@.files[fi] == fv);
                                    }
                                }
                            }
                        },
                    }
                } else {
                    assert(!rp(fv) && !sp(fv));
                }
            } else {
                assert(!file_needs(c@, fv.id, algos@));
                assert(!rp(fv) && !sp(fv));
            }
        } else {
            assert(!rp(fv) && !sp(fv));
        }
        proof {
            if !is_repair {
                assert(!rp(fv));
                assert(c@.files.subrange(0, i + 1).filter(rp) == c@.files.subrange(
                    0,
                    i as int,
                ).filter(rp));
                assert(repair_items_ok(
                    c@,
                    repairs@,
                    c@.files.subrange(0, i + 1).filter(rp),
                    algos@,
                    gmounted,
                ));
            }
            if !is_skip {
                assert(!sp(fv));
                assert(c@.files.subrange(0, i + 1).filter(sp) == c@.files.subrange(
                    0,
                    i as int,
                ).filter(sp));
                assert forall|id: Uid| skids@.contains(id) implies (exists|fi: int, pi: int|
                    0 <= fi < i + 1 && sp(#[trigger] c@.files[fi]) && 0 <= pi
                        < c@.placements.len() && (#[trigger] c@.placements[pi]).file_id
                        == c@.files[fi].id && c@.placements[pi].partition_id == id) by {
                }
                assert forall|id: Uid| (exists|fi: int, pi: int|
                    0 <= fi < i + 1 && sp(#[trigger] c@.files[fi]) && 0 <= pi
                        < c@.placements.len() && (#[trigger] c@.placements[pi]).file_id
                        == c@.files[fi].id && c@.placements[pi].partition_id == id)
                    implies skids@.contains(id) by {
                    let (fi, pi) = choose|fi: int, pi: int|
                        0 <= fi < i + 1 && sp(#[trigger] c@.files[fi]) && 0 <= pi
                            < c@.placements.len() && (#[trigger] c@.placements[pi]).file_id
                            == c@.files[fi].id && c@.placements[pi].partition_id == id;
                    if fi == i {
                        assert(c@.files[fi] == fv);
                        assert(!sp(fv));
                    }
                }
            }
        }
        i = i + 1;
    }
    assert(c@.files.subrange(0, c@.files.len() as int) =~= c@.files);
    SyncPlan { repairs, skipped_files, skipped_partition_ids: skids }
}

/// The first reason recording a repair would be rejected, if any.
pub open spec fn record_repair_check(c: CatalogV, fid: Uid, entries: Seq<ComputedHash>) -> Option<
    Error,
> {
    if !c.has_file(fid) {
        Some(Error::FileNotFound)
    } else if exists|k: int|
        0 <= k < entries.len() && c.has_hash(fid, (#[trigger] entries[k]).algorithm) {
        Some(Error::HashExists)
    } else if exists|x: int, y: int|
        0 <= x < y < entries.len() && (#[trigger] entries[x]).algorithm == (
        #[trigger] entries[y]).algorithm {
        Some(Error::HashExists)
    } else {
        None
    }
}

/// Record the freshly computed digests of one repaired file as one
/// all-or-nothing unit: either every row is inserted or the catalog is left
/// untouched.
pub fn record_repair(c: &mut Catalog, file_id: &Uid, hashes: &Vec<ComputedHash>) -> (r: Result<
    (),
    Error,
>)
    requires
        old(c)@.wf(),
    ensures
        final(c)@.wf(),
        match record_repair_check(old(c)@, *file_id, hashes@) {
            Some(e) => r == Result::<(), Error>::Err(e) && final(c)@ == old(c)@,
            None => (r is Ok || r == Result::<(), Error>::Err(Error::IdCollision)) && (r is Err
                ==> final(c)@ == old(c)@),
        },
        r is Ok ==> {
            &&& final(c)@.hashes.len() == old(c)@.hashes.len() + hashes@.len()
            &&& final(c)@.hashes.subrange(0, old(c)@.hashes.len() as int) == old(c)@.hashes
            &&& (forall|k: int|
                0 <= k < hashes@.len() ==> (#[trigger] final(c)@.hashes[old(c)@.hashes.len()
                    + k]).file_id == *file_id && final(c)@.hashes[old(c)@.hashes.len()
                    + k].hash_algorithm == hashes@[k].algorithm && final(c)@.hashes[old(
                    c,
                )@.hashes.len() + k].hash_value == hashes@[k].value@)
            &&& final(c)@.same_except_hashes(old(c)@)
        },
{
    let ghost gcheck = record_repair_check(old(c)@, *file_id, hashes@);
    if crate::catalog::File::for_id(c, file_id).is_none() {
        return Err(Error::FileNotFound);
    }
    let mut a: usize = 0;
    while a < hashes.len()
        invariant
            0 <= a <= hashes.len(),
            c@ == old(c)@,
            old(c)@.wf(),
            old(c)@.has_file(*file_id),
            gcheck == record_repair_check(old(c)@, *file_id, hashes@),
            forall|k: int|
                0 <= k < a ==> !old(c)@.has_hash(*file_id, (#[trigger] hashes@[k]).algorithm),
            forall|x: int, y: int|
                0 <= x < y < hashes@.len() && x < a ==> (#[trigger] hashes@[x]).algorithm != (
                #[trigger] hashes@[y]).algorithm,
        decreases hashes.len() - a,
    {
        if has_hash_row(c, file_id, hashes[a].algorithm) {
            assert(gcheck == Some(Error::HashExists));
            return Err(Error::HashExists);
        }
        let mut b: usize = a + 1;
        while b < hashes.len()
            invariant
                0 <= a < b <= hashes.len(),
                c@ == old(c)@,
                old(c)@.wf(),
                old(c)@.has_file(*file_id),
                gcheck == record_repair_check(old(c)@, *file_id, hashes@),
                !old(c)@.has_hash(*file_id, hashes@[a as int].algorithm),
                forall|k: int|
                    0 <= k < a ==> !old(c)@.has_hash(*file_id, (#[trigger] hashes@[k]).algorithm),
                forall|x: int, y: int|
                    0 <= x < y < hashes@.len() && x < a ==> (#[trigger] hashes@[x]).algorithm != (
                    #[trigger] hashes@[y]).algorithm,
                forall|y: int|
                    a < y < b ==> hashes@[a as int].algorithm != (#[trigger] hashes@[y]).algorithm,
            decreases hashes.len() - b,
        {
            if hashes[a].algorithm == hashes[b].algorithm {
                assert(gcheck == Some(Error::HashExists));
                return Err(Error::HashExists);
            }
            b = b + 1;
        }
        a = a + 1;
    }
    proof {
        assert(gcheck is None);
    }
    let mut staged = crate::catalog::copy_catalog(c);
    let ghost s0 = staged@;
    let mut hi: usize = 0;
    while hi < hashes.len()
        invariant
            0 <= hi <= hashes.len(),
            staged@.wf(),
            c@ == old(c)@,
            old(c)@.wf(),
            s0 == old(c)@,
            gcheck == record_repair_check(old(c)@, *file_id, hashes@),
            gcheck is None,
            old(c)@.has_file(*file_id),
            forall|k: int|
                0 <= k < hashes@.len() ==> !old(c)@.has_hash(
                    *file_id,
                    (#[trigger] hashes@[k]).algorithm,
                ),
            forall|x: int, y: int|
                0 <= x < y < hashes@.len() ==> (#[trigger] hashes@[x]).algorithm != (
                #[trigger] hashes@[y]).algorithm,
            staged@.hashes.len() == s0.hashes.len() + hi,
            staged@.hashes.subrange(0, s0.hashes.len() as int) == s0.hashes,
            forall|k: int|
                0 <= k < hi ==> (#[trigger] staged@.hashes[s0.hashes.len() + k]).file_id
                    == *file_id && staged@.hashes[s0.hashes.len() + k].hash_algorithm
                    == hashes@[k].algorithm && staged@.hashes[s0.hashes.len() + k].hash_value
                    == hashes@[k].value@,
            staged@.same_except_hashes(s0),
            staged@.has_file(*file_id),
        decreases hashes.len() - hi,
    {
        let nh = NewFileHash {
            file_id: *file_id,
            hash_algorithm: hashes[hi].algorithm,
            hash_value: crate::catalog::copy_bytes(&hashes[hi].value),
        };
        let ghost pre = staged@;
        match nh.insert(&mut staged) {
            Ok(_) => {},
            Err(e) => {
                if e == Error::IdCollision {
                    return Err(Error::IdCollision);
                }
                proof {
                    assert(!pre.has_hash(*file_id, hashes@[hi as int].algorithm)) by {
                        if pre.has_hash(*file_id, hashes@[hi as int].algorithm) {
                            let w = choose|w: int|
                                0 <= w < pre.hashes.len() && (#[trigger] pre.hashes[w]).file_id
                                    == *file_id && pre.hashes[w].hash_algorithm
                                    == hashes@[hi as int].algorithm;
                            if w < s0.hashes.len() {
                                assert(s0.hashes[w] == pre.hashes[w]);
                                assert(old(c)@.has_hash(*file_id, hashes@[hi as int].algorithm));
                            } else {
                                let k = w - s0.hashes.len();
                                assert(pre.hashes[s0.hashes.len() + k].hash_algorithm
                                    == hashes@[k].algorithm);
                            }
                        }
                    }
                    assert(false);
                }
                unreached()
            },
        }
        proof {
            assert(staged@.hashes.subrange(0, s0.hashes.len() as int) =~= s0.hashes);
            assert forall|k: int| 0 <= k < hi + 1 implies (#[trigger] staged@.hashes[s0.hashes.len()
                + k]).file_id == *file_id && staged@.hashes[s0.hashes.len() + k].hash_algorithm
                == hashes@[k].algorithm && staged@.hashes[s0.hashes.len() + k].hash_value
                == hashes@[k].value@ by {
                if k < hi {
                    assert(pre.hashes[s0.hashes.len() + k].file_id == *file_id);
                }
            }
        }
        hi = hi + 1;
    }
    *c = staged;
    Ok(())
}

// ---------------------------------------------------------------------------
// Idempotence
// ---------------------------------------------------------------------------

proof fn lemma_filter_congruence<A>(s: Seq<A>, p: spec_fn(A) -> bool, q: spec_fn(A) -> bool)
    requires
        forall|k: int| 0 <= k < s.len() ==> p(#[trigger] s[k]) == q(s[k]),
    ensures
        s.filter(p) == s.filter(q),
    decreases s.len(),
{
    reveal(Seq::filter);
    if s.len() > 0 {
        let init = s.drop_last();
        assert forall|k: int| 0 <= k < init.len() implies p(#[trigger] init[k]) == q(init[k]) by {
            assert(init[k] == s[k]);
        }
        lemma_filter_congruence(init, p, q);
        assert(p(s.last()) == q(s.last())) by {
            assert(s[s.len() - 1] == s.last());
        }
    }
}

/// Reconciliation is idempotent: after a pass that fully repaired every
/// reachable needing file and wrote nothing for any other file, a second
/// pass over the same mounted media plans no repairs and skips exactly the
/// same files, so it performs no further writes.
pub proof fn lemma_sync_idempotent(
    c1: CatalogV,
    c2: CatalogV,
    coll: Uid,
    target: Seq<HashAlgorithm>,
    mounted: Seq<Seq<char>>,
)
    requires
        c2.files == c1.files,
        c2.placements == c1.placements,
        c2.partitions == c1.partitions,
        forall|fid: Uid|
            (#[trigger] file_needs(c1, fid, target)) && file_has_placement(c1, fid) && reachable(
                c1,
                fid,
                mounted,
            ) ==> !file_needs(c2, fid, target),
        forall|fid: Uid, a: HashAlgorithm|
            !(file_needs(c1, fid, target) && file_has_placement(c1, fid) && reachable(
                c1,
                fid,
                mounted,
            )) ==> (#[trigger] c2.has_hash(fid, a)) == c1.has_hash(fid, a),
    ensures
        c2.files.filter(repair_pred(c2, coll, target, mounted)).len() == 0,
        c2.files.filter(skip_pred(c2, coll, target, mounted)) == c1.files.filter(
            skip_pred(c1, coll, target, mounted),
        ),
{
    let rp2 = repair_pred(c2, coll, target, mounted);
    assert forall|k: int| 0 <= k < c2.files.len() implies !rp2(#[trigger] c2.files[k]) by {
        let f = c2.files[k];
        if rp2(f) {
            assert(file_has_placement(c2, f.id) == file_has_placement(c1, f.id));
            assert(reachable(c2, f.id, mounted) == reachable(c1, f.id, mounted));
            if file_needs(c1, f.id, target) {
                assert(!file_needs(c2, f.id, target));
            } else {
                assert(!(file_needs(c1, f.id, target) && file_has_placement(c1, f.id)
                    && reachable(c1, f.id, mounted)));
                assert(file_needs(c2, f.id, target) ==> file_needs(c1, f.id, target)) by {
                    if file_needs(c2, f.id, target) {
                        let w = choose|w: int|
                            0 <= w < target.len() && !c2.has_hash(f.id, #[trigger] target[w]);
                        assert(c2.has_hash(f.id, target[w]) == c1.has_hash(f.id, target[w]));
                    }
                }
            }
        }
    }
    c2.files.lemma_all_neg_filter_empty(rp2);
    let sp1 = skip_pred(c1, coll, target, mounted);
    let sp2 = skip_pred(c2, coll, target, mounted);
    assert forall|k: int| 0 <= k < c2.files.len() implies sp2(#[trigger] c2.files[k]) == sp1(
        c2.files[k],
    ) by {
        let f = c2.files[k];
        assert(file_has_placement(c2, f.id) == file_has_placement(c1, f.id));
        assert(reachable(c2, f.id, mounted) == reachable(c1, f.id, mounted));
        if !reachable(c1, f.id, mounted) {
            assert(!(file_needs(c1, f.id, target) && file_has_placement(c1, f.id) && reachable(
                c1,
                f.id,
                mounted,
            )));
            assert(file_needs(c2, f.id, target) == file_needs(c1, f.id, target)) by {
                if file_needs(c2, f.id, target) {
                    let w = choose|w: int|
                        0 <= w < target.len() && !c2.has_hash(f.id, #[trigger] target[w]);
                    assert(c2.has_hash(f.id, target[w]) == c1.has_hash(f.id, target[w]));
                }
                if file_needs(c1, f.id, target) {
                    let w = choose|w: int|
                        0 <= w < target.len() && !c1.has_hash(f.id, #[trigger] target[w]);
                    assert(c2.has_hash(f.id, target[w]) == c1.has_hash(f.id, target[w]));
                }
            }
        }
    }
    lemma_filter_congruence(c2.files, sp2, sp1);
    assert(c2.files.filter(sp1) == c1.files.filter(sp1));
}

} // verus!
