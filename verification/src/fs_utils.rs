//! The path engine: canonicalization of operator-supplied virtual paths, the
//! deterministic physical path mapping, and the query primitives (relative
//! depth, basename, directory-listing match) that emulate directory semantics
//! over the flat file table.

use vstd::prelude::*;

use crate::error::Error;
use crate::ids::Uid;
use crate::ids::uid_hyphen_seq;
use crate::ids::uid_hyphenated;
use crate::strutil::chars_contain;
use crate::strutil::chars_string;
use crate::strutil::copy_chars;
use crate::strutil::extend_chars;
use crate::strutil::join_chars;
use crate::strutil::join_with;
use crate::strutil::lemma_join_prepend;
use crate::strutil::lemma_split_append_nosep;
use crate::strutil::lemma_split_append_sep;
use crate::strutil::lemma_split_join;
use crate::strutil::lemma_split_nosep;
use crate::strutil::lemma_split_on_len;
use crate::strutil::lemma_split_on_sep_free;
use crate::strutil::lemma_split_push_sep;
use crate::strutil::split_chars;
use crate::strutil::split_on;
use crate::strutil::str_chars;

verus! {

pub open spec fn path_parts(s: Seq<char>) -> Seq<Seq<char>> {
    split_on(s, '/')
}

pub open spec fn is_absolute(s: Seq<char>) -> bool {
    s.len() > 0 && s[0] == '/'
}

pub open spec fn dot_seg() -> Seq<char> {
    seq!['.']
}

pub open spec fn dotdot_seg() -> Seq<char> {
    seq!['.', '.']
}

/// A path is accepted by canonicalization when it is absolute and none of its
/// segments is a current-directory or parent-directory segment.
pub open spec fn canon_ok(s: Seq<char>) -> bool {
    &&& is_absolute(s)
    &&& forall|i: int|
        0 <= i < path_parts(s).len() ==> #[trigger] path_parts(s)[i] != dot_seg() && path_parts(
            s,
        )[i] != dotdot_seg()
}

/// The pieces of a split with the empty pieces (repeated or trailing
/// separators) removed.
pub open spec fn keep_nonempty(parts: Seq<Seq<char>>) -> Seq<Seq<char>>
    decreases parts.len(),
{
    if parts.len() == 0 {
        Seq::<Seq<char>>::empty()
    } else {
        let init = keep_nonempty(parts.drop_last());
        if parts.last().len() > 0 {
            init.push(parts.last())
        } else {
            init
        }
    }
}

/// The canonical form of an accepted path: a leading separator followed by
/// its nonempty ordinary segments.
pub open spec fn canon_of(s: Seq<char>) -> Seq<char> {
    seq!['/'] + join_with(keep_nonempty(path_parts(s)), '/')
}

pub open spec fn is_canonical_path(s: Seq<char>) -> bool {
    canon_ok(s) && canon_of(s) == s
}

/// Some current-directory segment comes before every parent-directory one.
pub open spec fn cur_seg_first(parts: Seq<Seq<char>>) -> bool {
    exists|i: int|
        0 <= i < parts.len() && parts[i] == dot_seg() && (forall|j: int|
            0 <= j < i ==> #[trigger] parts[j] != dotdot_seg())
}

/// Some parent-directory segment comes before every current-directory one.
pub open spec fn par_seg_first(parts: Seq<Seq<char>>) -> bool {
    exists|i: int|
        0 <= i < parts.len() && parts[i] == dotdot_seg() && (forall|j: int|
            0 <= j < i ==> #[trigger] parts[j] != dot_seg())
}

proof fn lemma_keep_step(parts: Seq<Seq<char>>, i: int)
    requires
        0 <= i < parts.len(),
    ensures
        keep_nonempty(parts.subrange(0, i + 1)) == if parts[i].len() > 0 {
            keep_nonempty(parts.subrange(0, i)).push(parts[i])
        } else {
            keep_nonempty(parts.subrange(0, i))
        },
{
    assert(parts.subrange(0, i + 1).drop_last() =~= parts.subrange(0, i));
    assert(parts.subrange(0, i + 1).last() == parts[i]);
}

proof fn lemma_keep_all_nonempty(parts: Seq<Seq<char>>)
    requires
        forall|i: int| 0 <= i < parts.len() ==> (#[trigger] parts[i]).len() > 0,
    ensures
        keep_nonempty(parts) == parts,
    decreases parts.len(),
{
    if parts.len() > 0 {
        let init = parts.drop_last();
        assert(forall|i: int| 0 <= i < init.len() ==> (#[trigger] init[i]).len() > 0);
        lemma_keep_all_nonempty(init);
        assert(parts.last().len() > 0) by {
            assert(parts[parts.len() - 1].len() > 0);
        }
        assert(init.push(parts.last()) =~= parts);
    } else {
        assert(keep_nonempty(parts) =~= parts);
    }
}

proof fn lemma_keep_prepend_empty(parts: Seq<Seq<char>>)
    ensures
        keep_nonempty(seq![Seq::<char>::empty()] + parts) == keep_nonempty(parts),
    decreases parts.len(),
{
    let e = Seq::<char>::empty();
    if parts.len() == 0 {
        assert(seq![e] + parts =~= seq![e]);
        assert(seq![e].drop_last() =~= Seq::<Seq<char>>::empty());
        assert(keep_nonempty(Seq::<Seq<char>>::empty()) =~= Seq::<Seq<char>>::empty());
        assert(keep_nonempty(seq![e]) =~= Seq::<Seq<char>>::empty());
        assert(keep_nonempty(seq![e] + parts) =~= Seq::<Seq<char>>::empty());
        assert(keep_nonempty(parts) =~= Seq::<Seq<char>>::empty());
    } else {
        let init = parts.drop_last();
        lemma_keep_prepend_empty(init);
        let whole = seq![e] + parts;
        assert(whole.len() == parts.len() + 1);
        assert(whole.drop_last() =~= seq![e] + init);
        assert(whole.last() == parts.last());
        assert(keep_nonempty(whole) == if parts.last().len() > 0 {
            keep_nonempty(seq![e] + init).push(parts.last())
        } else {
            keep_nonempty(seq![e] + init)
        });
        assert(keep_nonempty(parts) == if parts.last().len() > 0 {
            keep_nonempty(init).push(parts.last())
        } else {
            keep_nonempty(init)
        });
    }
}

/// Every kept piece is nonempty and occurs among the original pieces.
proof fn lemma_keep_elems(parts: Seq<Seq<char>>)
    ensures
        forall|i: int|
            0 <= i < keep_nonempty(parts).len() ==> (#[trigger] keep_nonempty(parts)[i]).len() > 0
                && parts.contains(keep_nonempty(parts)[i]),
    decreases parts.len(),
{
    if parts.len() > 0 {
        let init = parts.drop_last();
        lemma_keep_elems(init);
        assert forall|x: Seq<char>| init.contains(x) implies parts.contains(x) by {
            let j = choose|j: int| 0 <= j < init.len() && init[j] == x;
            assert(parts[j] == x);
        }
        assert(parts[parts.len() - 1] == parts.last());
        assert(parts.contains(parts.last()));
        let kp = keep_nonempty(parts);
        let ki = keep_nonempty(init);
        assert forall|i: int| 0 <= i < kp.len() implies (#[trigger] kp[i]).len() > 0
            && parts.contains(kp[i]) by {
            if parts.last().len() > 0 {
                assert(kp == ki.push(parts.last()));
                if i < ki.len() {
                    assert(kp[i] == ki[i]);
                    assert(init.contains(ki[i]));
                } else {
                    assert(kp[i] == parts.last());
                }
            } else {
                assert(kp == ki);
                assert(init.contains(ki[i]));
            }
        }
    }
}

/// Canonicalize an operator-supplied virtual path: it must be absolute, must
/// contain no current-directory or parent-directory segment, and collapses
/// repeated or trailing separators.
pub fn canonical_path(s: &str) -> (r: Result<String, Error>)
    ensures
        r is Ok <==> canon_ok(s@),
        r is Ok ==> (r->Ok_0)@ == canon_of(s@),
        (r == Result::<String, Error>::Err(Error::PathNotAbsolute)) <==> !is_absolute(s@),
        (r == Result::<String, Error>::Err(Error::PathCurDirSegment)) <==> (is_absolute(s@)
            && cur_seg_first(path_parts(s@))),
        (r == Result::<String, Error>::Err(Error::PathParentDirSegment)) <==> (is_absolute(s@)
            && par_seg_first(path_parts(s@))),
        r is Err ==> r->Err_0 == Error::PathNotAbsolute || r->Err_0 == Error::PathCurDirSegment
            || r->Err_0 == Error::PathParentDirSegment,
{
    let cs = str_chars(s);
    if cs.len() == 0 || cs[0] != '/' {
        return Err(Error::PathNotAbsolute);
    }
    let parts = split_chars(&cs, '/');
    let ghost gparts = path_parts(s@);
    proof {
        assert(parts@.map_values(|p: Vec<char>| p@) == gparts);
    }
    let mut i: usize = 0;
    while i < parts.len()
        invariant
            0 <= i <= parts.len(),
            gparts == path_parts(s@),
            parts@.map_values(|p: Vec<char>| p@) == gparts,
            is_absolute(s@),
            forall|j: int| 0 <= j < i ==> #[trigger] gparts[j] != dot_seg() && gparts[j]
                != dotdot_seg(),
        decreases parts.len() - i,
    {
        let p = &parts[i];
        assert(p@ == gparts[i as int]);
        if p.len() == 1 && p[0] == '.' {
            proof {
                assert(gparts[i as int] =~= dot_seg());
                assert(path_parts(s@)[i as int] == dot_seg());
                assert(!canon_ok(s@));
                assert(cur_seg_first(gparts));
                assert(!par_seg_first(gparts)) by {
                    if par_seg_first(gparts) {
                        let k = choose|k: int|
                            0 <= k < gparts.len() && gparts[k] == dotdot_seg() && (forall|j: int|
                                0 <= j < k ==> #[trigger] gparts[j] != dot_seg());
                        assert(dot_seg().len() == 1 && dotdot_seg().len() == 2);
                        if k < i {
                            assert(gparts[k] != dotdot_seg());
                        } else if k > i {
                            assert(gparts[i as int] != dot_seg());
                        }
                    }
                }
            }
            return Err(Error::PathCurDirSegment);
        }
        if p.len() == 2 && p[0] == '.' && p[1] == '.' {
            proof {
                assert(gparts[i as int] =~= dotdot_seg());
                assert(path_parts(s@)[i as int] == dotdot_seg());
                assert(!canon_ok(s@));
                assert(par_seg_first(gparts));
                assert(!cur_seg_first(gparts)) by {
                    if cur_seg_first(gparts) {
                        let k = choose|k: int|
                            0 <= k < gparts.len() && gparts[k] == dot_seg() && (forall|j: int|
                                0 <= j < k ==> #[trigger] gparts[j] != dotdot_seg());
                        assert(dot_seg().len() == 1 && dotdot_seg().len() == 2);
                        if k < i {
                            assert(gparts[k] != dot_seg());
                        } else if k > i {
                            assert(gparts[i as int] != dotdot_seg());
                        }
                    }
                }
            }
            return Err(Error::PathParentDirSegment);
        }
        proof {
            assert(gparts[i as int] != dot_seg() && gparts[i as int] != dotdot_seg()) by {
                if gparts[i as int] == dot_seg() {
                    assert(gparts[i as int].len() == 1 && gparts[i as int][0] == '.');
                }
                if gparts[i as int] == dotdot_seg() {
                    let g = gparts[i as int];
                    assert(g.len() == 2 && g[0] == '.' && g[1] == '.');
                }
            }
        }
        i = i + 1;
    }
    proof {
        assert(canon_ok(s@));
        assert(!cur_seg_first(gparts)) by {
            if cur_seg_first(gparts) {
                let k = choose|k: int|
                    0 <= k < gparts.len() && gparts[k] == dot_seg() && (forall|j: int|
                        0 <= j < k ==> #[trigger] gparts[j] != dotdot_seg());
                assert(path_parts(s@)[k] != dot_seg());
            }
        }
        assert(!par_seg_first(gparts)) by {
            if par_seg_first(gparts) {
                let k = choose|k: int|
                    0 <= k < gparts.len() && gparts[k] == dotdot_seg() && (forall|j: int|
                        0 <= j < k ==> #[trigger] gparts[j] != dot_seg());
                assert(path_parts(s@)[k] != dotdot_seg());
            }
        }
    }
    let mut kept: Vec<Vec<char>> = Vec::new();
    assert(kept@.map_values(|p: Vec<char>| p@) =~= keep_nonempty(gparts.subrange(0, 0)));
    let mut k: usize = 0;
    while k < parts.len()
        invariant
            0 <= k <= parts.len(),
            parts@.map_values(|p: Vec<char>| p@) == gparts,
            kept@.map_values(|p: Vec<char>| p@) == keep_nonempty(gparts.subrange(0, k as int)),
        decreases parts.len() - k,
    {
        proof {
            lemma_keep_step(gparts, k as int);
        }
        if parts[k].len() > 0 {
            let piece = copy_chars(&parts[k]);
            kept.push(piece);
            assert(kept@.map_values(|p: Vec<char>| p@) =~= keep_nonempty(
                gparts.subrange(0, k as int),
            ).push(gparts[k as int]));
        }
        k = k + 1;
    }
    assert(gparts.subrange(0, gparts.len() as int) =~= gparts);
    let joined = join_chars(&kept, '/');
    let mut out: Vec<char> = Vec::new();
    out.push('/');
    extend_chars(&mut out, &joined);
    assert(out@ =~= canon_of(s@));
    Ok(chars_string(&out))
}

/// The shape every canonical result has: a leading separator, no repeated
/// separator, and no trailing separator except for the root itself.
pub proof fn lemma_join_shape(parts: Seq<Seq<char>>, sep: char)
    requires
        forall|i: int|
            0 <= i < parts.len() ==> (#[trigger] parts[i]).len() > 0 && !parts[i].contains(sep),
    ensures
        !join_with(parts, sep).contains(sep) || parts.len() >= 2,
        parts.len() >= 1 ==> join_with(parts, sep).len() > 0 && join_with(parts, sep)[0] != sep
            && join_with(parts, sep).last() != sep,
        forall|i: int|
            #![trigger join_with(parts, sep)[i]]
            0 <= i < join_with(parts, sep).len() - 1 ==> !(join_with(parts, sep)[i] == sep
                && join_with(parts, sep)[i + 1] == sep),
    decreases parts.len(),
{
    if parts.len() == 0 {
    } else if parts.len() == 1 {
        assert(!parts[0].contains(sep));
        assert(join_with(parts, sep) == parts[0]);
        assert(forall|i: int| 0 <= i < parts[0].len() ==> parts[0][i] != sep);
    } else {
        let init = parts.drop_last();
        assert(forall|i: int|
            0 <= i < init.len() ==> (#[trigger] init[i]).len() > 0 && !init[i].contains(sep));
        lemma_join_shape(init, sep);
        let ji = join_with(init, sep);
        let last = parts.last();
        assert(!parts[parts.len() - 1].contains(sep));
        assert(forall|i: int| 0 <= i < last.len() ==> last[i] != sep);
        let whole = ji + seq![sep] + last;
        assert(join_with(parts, sep) == whole);
        assert(whole[0] == ji[0]);
        assert(whole.last() == last.last()) by {
            assert(whole[whole.len() - 1] == last[last.len() - 1]);
        }
        assert(last[last.len() - 1] != sep);
        assert forall|i: int| #![trigger whole[i]] 0 <= i < whole.len() - 1 implies !(whole[i]
            == sep && whole[i + 1] == sep) by {
            if i < ji.len() - 1 {
                assert(whole[i] == ji[i] && whole[i + 1] == ji[i + 1]);
            } else if i == ji.len() - 1 {
                assert(whole[i] == ji.last());
            } else if i == ji.len() {
                assert(whole[i + 1] == last[0]);
            } else {
                assert(whole[i] == last[i - ji.len() - 1]);
            }
        }
    }
}

pub proof fn lemma_canon_shape(s: Seq<char>)
    requires
        canon_ok(s),
    ensures
        canon_of(s).len() >= 1,
        canon_of(s)[0] == '/',
        canon_of(s).len() > 1 ==> canon_of(s).last() != '/',
        forall|i: int|
            #![trigger canon_of(s)[i]]
            0 <= i < canon_of(s).len() - 1 ==> !(canon_of(s)[i] == '/' && canon_of(s)[i + 1]
                == '/'),
{
    let parts = path_parts(s);
    let keep = keep_nonempty(parts);
    lemma_split_on_sep_free(s, '/');
    lemma_keep_elems(parts);
    assert forall|i: int| 0 <= i < keep.len() implies (#[trigger] keep[i]).len() > 0
        && !keep[i].contains('/') by {
        let j = choose|j: int| 0 <= j < parts.len() && parts[j] == keep[i];
        assert(!parts[j].contains('/'));
    }
    lemma_join_shape(keep, '/');
    let jn = join_with(keep, '/');
    let c = canon_of(s);
    assert(c == seq!['/'] + jn);
    if keep.len() == 0 {
        assert(jn.len() == 0);
    } else {
        assert(c.last() == jn.last()) by {
            assert(c[c.len() - 1] == jn[jn.len() - 1]);
        }
        assert forall|i: int| #![trigger c[i]] 0 <= i < c.len() - 1 implies !(c[i] == '/' && c[i
            + 1] == '/') by {
            if i == 0 {
                assert(c[1] == jn[0]);
            } else {
                assert(c[i] == jn[i - 1] && c[i + 1] == jn[i]);
            }
        }
    }
}

/// Canonicalization is idempotent: canonicalizing an already canonical path
/// returns it unchanged.
pub proof fn lemma_canonical_idempotent(s: Seq<char>)
    requires
        canon_ok(s),
    ensures
        canon_ok(canon_of(s)),
        canon_of(canon_of(s)) == canon_of(s),
{
    let parts = path_parts(s);
    let keep = keep_nonempty(parts);
    let c = canon_of(s);
    lemma_split_on_sep_free(s, '/');
    lemma_keep_elems(parts);
    assert forall|i: int| 0 <= i < keep.len() implies (#[trigger] keep[i]).len() > 0
        && !keep[i].contains('/') && keep[i] != dot_seg() && keep[i] != dotdot_seg() by {
        let j = choose|j: int| 0 <= j < parts.len() && parts[j] == keep[i];
        assert(!parts[j].contains('/'));
        assert(parts[j] != dot_seg() && parts[j] != dotdot_seg());
    }
    if keep.len() == 0 {
        assert(join_with(keep, '/') == Seq::<char>::empty());
        assert(c =~= Seq::<char>::empty().push('/'));
        lemma_split_push_sep(Seq::<char>::empty(), '/');
        assert(path_parts(c) == split_on(Seq::<char>::empty(), '/').push(Seq::<char>::empty()));
        assert(path_parts(c) =~= seq![Seq::<char>::empty(), Seq::<char>::empty()]);
        assert(canon_ok(c)) by {
            assert(forall|i: int|
                0 <= i < path_parts(c).len() ==> #[trigger] path_parts(c)[i]
                    == Seq::<char>::empty());
        }
        let pc = path_parts(c);
        assert(keep_nonempty(pc) =~= Seq::<Seq<char>>::empty()) by {
            assert(pc.drop_last() =~= seq![Seq::<char>::empty()]);
            assert(seq![Seq::<char>::empty()].drop_last() =~= Seq::<Seq<char>>::empty());
            assert(keep_nonempty(Seq::<Seq<char>>::empty()) =~= Seq::<Seq<char>>::empty());
            assert(keep_nonempty(seq![Seq::<char>::empty()]) =~= Seq::<Seq<char>>::empty());
        }
        assert(canon_of(c) =~= c);
    } else {
        let ext = seq![Seq::<char>::empty()] + keep;
        lemma_join_prepend(Seq::<char>::empty(), keep, '/');
        assert(join_with(ext, '/') == Seq::<char>::empty() + seq!['/'] + join_with(keep, '/'));
        assert(join_with(ext, '/') =~= c);
        assert(forall|i: int| 0 <= i < ext.len() ==> !(#[trigger] ext[i]).contains('/')) by {
            assert(!Seq::<char>::empty().contains('/'));
            assert(forall|i: int| 0 <= i < keep.len() ==> ext[i + 1] == keep[i]);
            assert forall|i: int| 0 <= i < ext.len() implies !(#[trigger] ext[i]).contains('/') by {
                if i == 0 {
                    assert(ext[0] == Seq::<char>::empty());
                } else {
                    assert(ext[i] == keep[i - 1]);
                }
            }
        }
        lemma_split_join(ext, '/');
        assert(path_parts(c) == ext);
        assert(canon_ok(c)) by {
            assert(c[0] == '/');
            assert(c.len() > 0);
            assert forall|i: int| 0 <= i < ext.len() implies #[trigger] ext[i] != dot_seg()
                && ext[i] != dotdot_seg() by {
                if i == 0 {
                    assert(ext[0] == Seq::<char>::empty());
                    assert(ext[0].len() == 0);
                } else {
                    assert(ext[i] == keep[i - 1]);
                }
            }
        }
        lemma_keep_prepend_empty(keep);
        lemma_keep_all_nonempty(keep);
        assert(keep_nonempty(path_parts(c)) == keep);
        assert(canon_of(c) == c);
    }
}

/// A path never has both a first-offending current-directory segment and a
/// first-offending parent-directory one: whichever bad segment comes first
/// decides.
pub proof fn lemma_dot_first_exclusive(parts: Seq<Seq<char>>)
    ensures
        !(cur_seg_first(parts) && par_seg_first(parts)),
{
    if cur_seg_first(parts) && par_seg_first(parts) {
        let i = choose|i: int|
            0 <= i < parts.len() && parts[i] == dot_seg() && (forall|j: int|
                0 <= j < i ==> #[trigger] parts[j] != dotdot_seg());
        let k = choose|k: int|
            0 <= k < parts.len() && parts[k] == dotdot_seg() && (forall|j: int|
                0 <= j < k ==> #[trigger] parts[j] != dot_seg());
        assert(dot_seg().len() == 1 && dotdot_seg().len() == 2);
        if i < k {
            assert(parts[i] != dot_seg());
        } else if k < i {
            assert(parts[k] != dotdot_seg());
        }
    }
}

/// An accepted path has no current-directory or parent-directory segment at
/// all, so neither kind can come first.
pub proof fn lemma_canon_ok_no_dot_first(s: Seq<char>)
    requires
        canon_ok(s),
    ensures
        !cur_seg_first(path_parts(s)),
        !par_seg_first(path_parts(s)),
{
    let parts = path_parts(s);
    if cur_seg_first(parts) {
        let i = choose|i: int|
            0 <= i < parts.len() && parts[i] == dot_seg() && (forall|j: int|
                0 <= j < i ==> #[trigger] parts[j] != dotdot_seg());
        assert(path_parts(s)[i] != dot_seg());
    }
    if par_seg_first(parts) {
        let k = choose|k: int|
            0 <= k < parts.len() && parts[k] == dotdot_seg() && (forall|j: int|
                0 <= j < k ==> #[trigger] parts[j] != dot_seg());
        assert(path_parts(s)[k] != dotdot_seg());
    }
}

/// Remove every root and repeated separator, keeping only ordinary segments:
/// the canonical absolute path `/a/b` becomes the relative `a/b`.
pub fn strip_root(path: &str) -> (r: String)
    ensures
        r@ == join_with(keep_nonempty(path_parts(path@)), '/'),
{
    let cs = str_chars(path);
    let parts = split_chars(&cs, '/');
    let ghost gparts = path_parts(path@);
    let mut kept: Vec<Vec<char>> = Vec::new();
    assert(kept@.map_values(|p: Vec<char>| p@) =~= keep_nonempty(gparts.subrange(0, 0)));
    let mut k: usize = 0;
    while k < parts.len()
        invariant
            0 <= k <= parts.len(),
            parts@.map_values(|p: Vec<char>| p@) == gparts,
            kept@.map_values(|p: Vec<char>| p@) == keep_nonempty(gparts.subrange(0, k as int)),
        decreases parts.len() - k,
    {
        proof {
            lemma_keep_step(gparts, k as int);
        }
        if parts[k].len() > 0 {
            let piece = copy_chars(&parts[k]);
            kept.push(piece);
            assert(kept@.map_values(|p: Vec<char>| p@) =~= keep_nonempty(
                gparts.subrange(0, k as int),
            ).push(gparts[k as int]));
        }
        k = k + 1;
    }
    assert(gparts.subrange(0, gparts.len() as int) =~= gparts);
    let joined = join_chars(&kept, '/');
    chars_string(&joined)
}

pub open spec fn strip_one_trailing_sep(s: Seq<char>) -> Seq<char> {
    if s.len() > 0 && s.last() == '/' {
        s.drop_last()
    } else {
        s
    }
}

/// The depth of `cand` beneath `root`: the number of extra segments when the
/// segments of `root` (one trailing separator ignored) are a literal prefix
/// of the segments of `cand`, and nothing otherwise.
pub open spec fn rel_depth_of(root: Seq<char>, cand: Seq<char>) -> Option<int> {
    let rp = split_on(strip_one_trailing_sep(root), '/');
    let cp = split_on(cand, '/');
    if rp.is_prefix_of(cp) {
        Some(cp.len() - rp.len())
    } else {
        None
    }
}

pub fn relative_depth(root: &str, cand: &str) -> (r: Option<usize>)
    ensures
        match r {
            Some(d) => rel_depth_of(root@, cand@) == Some(d as int),
            None => rel_depth_of(root@, cand@) is None,
        },
{
    let mut rcs = str_chars(root);
    if rcs.len() > 0 && rcs[rcs.len() - 1] == '/' {
        rcs.pop();
        assert(rcs@ =~= strip_one_trailing_sep(root@));
    } else {
        assert(rcs@ =~= strip_one_trailing_sep(root@));
    }
    let ccs = str_chars(cand);
    let rparts = split_chars(&rcs, '/');
    let cparts = split_chars(&ccs, '/');
    let ghost grp = split_on(strip_one_trailing_sep(root@), '/');
    let ghost gcp = split_on(cand@, '/');
    proof {
        assert(grp.len() == rparts@.len());
        assert(gcp.len() == cparts@.len());
    }
    if rparts.len() > cparts.len() {
        assert(!grp.is_prefix_of(gcp));
        return None;
    }
    let mut i: usize = 0;
    while i < rparts.len()
        invariant
            0 <= i <= rparts.len(),
            rparts.len() <= cparts.len(),
            grp == split_on(strip_one_trailing_sep(root@), '/'),
            gcp == split_on(cand@, '/'),
            rparts@.map_values(|p: Vec<char>| p@) == grp,
            cparts@.map_values(|p: Vec<char>| p@) == gcp,
            forall|j: int| 0 <= j < i ==> grp[j] == gcp[j],
        decreases rparts.len() - i,
    {
        if !crate::strutil::chars_eq(&rparts[i], &cparts[i]) {
            assert(grp[i as int] != gcp[i as int]);
            assert(!grp.is_prefix_of(gcp));
            return None;
        }
        i = i + 1;
    }
    assert(grp =~= gcp.subrange(0, grp.len() as int));
    assert(grp.is_prefix_of(gcp));
    Some(cparts.len() - rparts.len())
}

pub open spec fn strip_trailing_seps(s: Seq<char>) -> Seq<char>
    decreases s.len(),
{
    if s.len() > 0 && s.last() == '/' {
        strip_trailing_seps(s.drop_last())
    } else {
        s
    }
}

/// The final path segment, with trailing separators ignored; nothing when no
/// segment is left.
pub open spec fn basename_of(s: Seq<char>) -> Option<Seq<char>> {
    let t = strip_trailing_seps(s);
    if t.len() == 0 {
        None
    } else {
        Some(split_on(t, '/').last())
    }
}

/// The final piece of a split is the suffix that follows the last separator.
proof fn lemma_split_last_suffix(x: Seq<char>, k: int)
    requires
        0 <= k <= x.len(),
        k == 0 || x[k - 1] == '/',
        forall|j: int| k <= j < x.len() ==> x[j] != '/',
    ensures
        split_on(x, '/').last() == x.skip(k),
{
    let tail = x.skip(k);
    assert(!tail.contains('/')) by {
        assert forall|j: int| 0 <= j < tail.len() implies tail[j] != '/' by {
            assert(tail[j] == x[j + k]);
        }
    }
    if k == 0 {
        lemma_split_nosep(x, '/');
        assert(x.skip(0) =~= x);
    } else {
        let head = x.subrange(0, k - 1);
        assert(x =~= head + seq!['/'] + tail);
        lemma_split_append_sep(head, '/');
        lemma_split_append_nosep(head + seq!['/'], tail, '/');
        lemma_split_on_len(head, '/');
        let sh = split_on(head + seq!['/'], '/');
        assert(sh == split_on(head, '/').push(Seq::<char>::empty()));
        assert(sh.last() == Seq::<char>::empty());
        assert(split_on(x, '/') == sh.update(sh.len() - 1, sh.last() + tail));
        assert(Seq::<char>::empty() + tail =~= tail);
        assert(split_on(x, '/').last() == tail) by {
            assert(split_on(x, '/')[sh.len() - 1] == tail);
        }
    }
}

pub fn basename(path: &str) -> (r: Option<String>)
    ensures
        match r {
            Some(b) => basename_of(path@) == Some(b@),
            None => basename_of(path@) is None,
        },
{
    let cs = str_chars(path);
    let mut end: usize = cs.len();
    assert(cs@.subrange(0, cs@.len() as int) =~= cs@);
    while end > 0 && cs[end - 1] == '/'
        invariant
            0 <= end <= cs.len(),
            strip_trailing_seps(cs@.subrange(0, end as int)) == strip_trailing_seps(cs@),
        decreases end,
    {
        assert(cs@.subrange(0, end as int).drop_last() =~= cs@.subrange(0, end - 1 as int));
        end = end - 1;
    }
    let ghost t = cs@.subrange(0, end as int);
    proof {
        assert(strip_trailing_seps(t) == t);
        assert(strip_trailing_seps(cs@) == t);
    }
    if end == 0 {
        return None;
    }
    let mut start: usize = end;
    while start > 0 && cs[start - 1] != '/'
        invariant
            0 <= start <= end,
            end <= cs.len(),
            forall|j: int| start <= j < end ==> cs@[j] != '/',
        decreases start,
    {
        start = start - 1;
    }
    let mut out: Vec<char> = Vec::new();
    let mut i: usize = start;
    while i < end
        invariant
            start <= i <= end,
            end <= cs.len(),
            out@ == cs@.subrange(start as int, i as int),
        decreases end - i,
    {
        out.push(cs[i]);
        assert(cs@.subrange(start as int, i + 1 as int) =~= cs@.subrange(
            start as int,
            i as int,
        ).push(cs@[i as int]));
        i = i + 1;
    }
    proof {
        assert forall|j: int| start <= j < t.len() implies t[j] != '/' by {
            assert(t[j] == cs@[j]);
        }
        if start > 0 {
            assert(t[start - 1] == cs@[start - 1]);
        }
        lemma_split_last_suffix(t, start as int);
        assert(out@ =~= t.skip(start as int));
    }
    Some(chars_string(&out))
}

/// The root prefix a directory listing matches against: the root itself if
/// it already ends with a separator, else the root with one appended.
pub open spec fn ls_root_prefix(root: Seq<char>) -> Seq<char> {
    if root.len() > 0 && root.last() == '/' {
        root
    } else {
        root.push('/')
    }
}

/// Whether a stored path appears in the non-recursive listing of `root`:
/// it extends the root prefix by a remainder holding no further separator,
/// and, unless hidden entries are included, the remainder must be nonempty
/// and must not begin with a dot.
pub open spec fn ls_matches(root: Seq<char>, include_hidden: bool, p: Seq<char>) -> bool {
    let pre = ls_root_prefix(root);
    &&& pre.is_prefix_of(p)
    &&& if include_hidden {
        !p.skip(pre.len() as int).contains('/')
    } else {
        let rem = p.skip(pre.len() as int);
        rem.len() >= 1 && rem[0] != '.' && !rem.skip(1).contains('/')
    }
}

pub fn ls_match(root: &str, include_hidden: bool, p: &str) -> (r: bool)
    ensures
        r == ls_matches(root@, include_hidden, p@),
{
    let mut pre = str_chars(root);
    if !(pre.len() > 0 && pre[pre.len() - 1] == '/') {
        pre.push('/');
    }
    assert(pre@ == ls_root_prefix(root@));
    let pcs = str_chars(p);
    if !crate::strutil::chars_is_prefix(&pre, &pcs) {
        return false;
    }
    let ghost rem = p@.skip(pre@.len() as int);
    let mut tail: Vec<char> = Vec::new();
    let mut i: usize = pre.len();
    while i < pcs.len()
        invariant
            pre.len() <= i <= pcs.len(),
            tail@ == pcs@.subrange(pre@.len() as int, i as int),
        decreases pcs.len() - i,
    {
        tail.push(pcs[i]);
        assert(pcs@.subrange(pre@.len() as int, i + 1 as int) =~= pcs@.subrange(
            pre@.len() as int,
            i as int,
        ).push(pcs@[i as int]));
        i = i + 1;
    }
    assert(tail@ =~= rem);
    if include_hidden {
        let has = chars_contain(&tail, '/');
        !has
    } else {
        if tail.len() == 0 {
            return false;
        }
        if tail[0] == '.' {
            return false;
        }
        let mut rest: Vec<char> = Vec::new();
        let mut j: usize = 1;
        while j < tail.len()
            invariant
                1 <= j <= tail.len(),
                rest@ == tail@.subrange(1, j as int),
            decreases tail.len() - j,
        {
            rest.push(tail[j]);
            assert(tail@.subrange(1, j + 1 as int) =~= tail@.subrange(1, j as int).push(
                tail@[j as int],
            ));
            j = j + 1;
        }
        assert(rest@ =~= rem.skip(1));
        let has = chars_contain(&rest, '/');
        !has
    }
}

/// The deterministic physical location of a file: a fixed root segment, the
/// hyphenated collection identifier, then the canonical virtual path.
pub open spec fn physical_rel_path_of(id: Uid, canon: Seq<char>) -> Seq<char> {
    "hoard/collections/"@ + uid_hyphen_seq(id.value) + canon
}

pub fn physical_relative_path(collection_id: &Uid, virtual_path: &str) -> (r: Result<
    String,
    Error,
>)
    ensures
        r is Ok <==> canon_ok(virtual_path@),
        r is Ok ==> (r->Ok_0)@ == physical_rel_path_of(*collection_id, canon_of(virtual_path@)),
{
    let canon = canonical_path(virtual_path)?;
    let hy = uid_hyphenated(collection_id);
    let mut out = String::from_str("hoard/collections/");
    out.append(hy.as_str());
    out.append(canon.as_str());
    Ok(out)
}

/// The physical mapping is a pure function of the collection identifier and
/// the operator-supplied path: two computations over the same inputs always
/// give the same relative path.
pub proof fn lemma_physical_path_pure(id: Uid, p: Seq<char>, r1: Seq<char>, r2: Seq<char>)
    requires
        r1 == physical_rel_path_of(id, canon_of(p)),
        r2 == physical_rel_path_of(id, canon_of(p)),
    ensures
        r1 == r2,
{
}

/// A hidden-free listing never shows an entry whose basename begins with a
/// dot, and never shows an entry more than one segment below the root.
pub proof fn lemma_ls_no_hidden_no_deep(root: Seq<char>, p: Seq<char>)
    requires
        is_canonical_path(p),
        ls_matches(root, false, p),
    ensures
        rel_depth_of(root, p) == Some(1int),
        basename_of(p) is Some,
        basename_of(p)->0.len() >= 1,
        basename_of(p)->0[0] != '.',
{
    let pre = ls_root_prefix(root);
    let rem = p.skip(pre.len() as int);
    lemma_canon_shape(p);
    assert(canon_of(p) == p);
    // The remainder holds no separator: its first character is not one
    // because the canonical path has no repeated separator right after the
    // prefix's final one, and the rest holds none by the match itself.
    assert(pre.len() >= 1);
    assert(pre[pre.len() - 1] == '/') by {
        if root.len() > 0 && root.last() == '/' {
        } else {
            assert(pre == root.push('/'));
        }
    }
    assert(p[pre.len() - 1] == '/') by {
        assert(pre.is_prefix_of(p));
        assert(pre[pre.len() - 1] == p[pre.len() - 1]);
    }
    assert(rem[0] == p[pre.len() as int]);
    assert(rem[0] != '/') by {
        if pre.len() < p.len() {
            assert(!(p[pre.len() - 1] == '/' && p[pre.len() as int] == '/'));
        }
    }
    assert(!rem.contains('/')) by {
        assert forall|j: int| 0 <= j < rem.len() implies rem[j] != '/' by {
            if j == 0 {
            } else {
                assert(!rem.skip(1).contains('/'));
                assert(rem.skip(1)[j - 1] == rem[j]);
            }
        }
    }
    // Depth: p is the root (one trailing separator ignored) plus one segment.
    let base = strip_one_trailing_sep(root);
    assert(p =~= base + seq!['/'] + rem) by {
        if root.len() > 0 && root.last() == '/' {
            assert(base.push('/') =~= root);
        } else {
            assert(base == root);
        }
        assert(pre =~= base + seq!['/']);
    }
    lemma_split_append_sep(base, '/');
    lemma_split_append_nosep(base + seq!['/'], rem, '/');
    lemma_split_on_len(base, '/');
    let sb = split_on(base, '/');
    let sp = split_on(p, '/');
    assert(sp == sb.push(Seq::<char>::empty()).update(sb.len() as int, Seq::<char>::empty() + rem));
    assert(Seq::<char>::empty() + rem =~= rem);
    assert(sp =~= sb.push(rem));
    assert(sb.is_prefix_of(sp)) by {
        assert(sb =~= sp.subrange(0, sb.len() as int));
    }
    assert(rel_depth_of(root, p) == Some(1int));
    // Basename: the path ends in the separator-free nonempty remainder.
    assert(p.last() == rem.last()) by {
        assert(p[p.len() - 1] == rem[rem.len() - 1]);
    }
    assert(rem.last() != '/') by {
        assert(rem[rem.len() - 1] != '/');
    }
    assert(strip_trailing_seps(p) == p);
    assert(sp.last() == rem);
    assert(basename_of(p) == Some(rem));
}

} // verus!
