//! Digest computation over file contents: the set of supported algorithms,
//! one trusted wrapper per digest function, and the one-pass driver that
//! computes every configured digest of a byte buffer.

use vstd::prelude::*;

use crate::error::GenericError;
use crate::ids::hex_char;

verus! {

#[derive(Debug, Clone, Copy, PartialEq, Eq, Structural, Hash)]
pub enum HashAlgorithm {
    Sha1,
    Sha256,
    Sha384,
    Sha512,
    Sha3_256,
    Sha3_384,
    Sha3_512,
}

impl HashAlgorithm {
    /// The stable textual tag of the algorithm, as stored in hash rows.
    pub open spec fn spec_name(self) -> Seq<char> {
        match self {
            HashAlgorithm::Sha1 => "sha1"@,
            HashAlgorithm::Sha256 => "sha2-256"@,
            HashAlgorithm::Sha384 => "sha2-384"@,
            HashAlgorithm::Sha512 => "sha2-512"@,
            HashAlgorithm::Sha3_256 => "sha3-256"@,
            HashAlgorithm::Sha3_384 => "sha3-384"@,
            HashAlgorithm::Sha3_512 => "sha3-512"@,
        }
    }

    pub fn name(&self) -> (r: String)
        ensures
            r@ == self.spec_name(),
    {
        match self {
            HashAlgorithm::Sha1 => String::from_str("sha1"),
            HashAlgorithm::Sha256 => String::from_str("sha2-256"),
            HashAlgorithm::Sha384 => String::from_str("sha2-384"),
            HashAlgorithm::Sha512 => String::from_str("sha2-512"),
            HashAlgorithm::Sha3_256 => String::from_str("sha3-256"),
            HashAlgorithm::Sha3_384 => String::from_str("sha3-384"),
            HashAlgorithm::Sha3_512 => String::from_str("sha3-512"),
        }
    }

    /// The algorithm a textual tag denotes, if any.
    pub open spec fn spec_parse(s: Seq<char>) -> Option<HashAlgorithm> {
        if s == "sha1"@ {
            Some(HashAlgorithm::Sha1)
        } else if s == "sha2-256"@ {
            Some(HashAlgorithm::Sha256)
        } else if s == "sha2-384"@ {
            Some(HashAlgorithm::Sha384)
        } else if s == "sha2-512"@ {
            Some(HashAlgorithm::Sha512)
        } else if s == "sha3-256"@ {
            Some(HashAlgorithm::Sha3_256)
        } else if s == "sha3-384"@ {
            Some(HashAlgorithm::Sha3_384)
        } else if s == "sha3-512"@ {
            Some(HashAlgorithm::Sha3_512)
        } else {
            None
        }
    }

    pub fn from_name(value: &str) -> (r: Result<HashAlgorithm, GenericError>)
        ensures
            match r {
                Ok(a) => HashAlgorithm::spec_parse(value@) == Some(a),
                Err(_) => HashAlgorithm::spec_parse(value@) is None,
            },
    {
        let v = String::from_str(value);
        if v == String::from_str("sha1") {
            Ok(HashAlgorithm::Sha1)
        } else if v == String::from_str("sha2-256") {
            Ok(HashAlgorithm::Sha256)
        } else if v == String::from_str("sha2-384") {
            Ok(HashAlgorithm::Sha384)
        } else if v == String::from_str("sha2-512") {
            Ok(HashAlgorithm::Sha512)
        } else if v == String::from_str("sha3-256") {
            Ok(HashAlgorithm::Sha3_256)
        } else if v == String::from_str("sha3-384") {
            Ok(HashAlgorithm::Sha3_384)
        } else if v == String::from_str("sha3-512") {
            Ok(HashAlgorithm::Sha3_512)
        } else {
            let mut msg = String::from_str("not a known hash algorithm: ");
            msg.append(value);
            Err(GenericError::new(msg))
        }
    }
}

pub uninterp spec fn sha1_of(data: Seq<u8>) -> Seq<u8>;

pub uninterp spec fn sha256_of(data: Seq<u8>) -> Seq<u8>;

pub uninterp spec fn sha384_of(data: Seq<u8>) -> Seq<u8>;

pub uninterp spec fn sha512_of(data: Seq<u8>) -> Seq<u8>;

pub uninterp spec fn sha3_256_of(data: Seq<u8>) -> Seq<u8>;

pub uninterp spec fn sha3_384_of(data: Seq<u8>) -> Seq<u8>;

pub uninterp spec fn sha3_512_of(data: Seq<u8>) -> Seq<u8>;

/// Relies on sha1::Sha1::digest: a 20-byte digest depending on the input
/// bytes alone.
#[verifier::external_body]
fn sha1_digest(data: &[u8]) -> (r: Vec<u8>)
    ensures
        r@ == sha1_of(data@),
        r@.len() == 20,
{
    <sha1::Sha1 as sha1::Digest>::digest(data).to_vec()
}

/// Relies on sha2::Sha256::digest: a 32-byte digest depending on the input
/// bytes alone.
#[verifier::external_body]
fn sha256_digest(data: &[u8]) -> (r: Vec<u8>)
    ensures
        r@ == sha256_of(data@),
        r@.len() == 32,
{
    <sha2::Sha256 as sha2::Digest>::digest(data).to_vec()
}

/// Relies on sha2::Sha384::digest: a 48-byte digest depending on the input
/// bytes alone.
#[verifier::external_body]
fn sha384_digest(data: &[u8]) -> (r: Vec<u8>)
    ensures
        r@ == sha384_of(data@),
        r@.len() == 48,
{
    <sha2::Sha384 as sha2::Digest>::digest(data).to_vec()
}

/// Relies on sha2::Sha512::digest: a 64-byte digest depending on the input
/// bytes alone.
#[verifier::external_body]
fn sha512_digest(data: &[u8]) -> (r: Vec<u8>)
    ensures
        r@ == sha512_of(data@),
        r@.len() == 64,
{
    <sha2::Sha512 as sha2::Digest>::digest(data).to_vec()
}

/// Relies on sha3::Sha3_256::digest: a 32-byte digest depending on the input
/// bytes alone.
#[verifier::external_body]
fn sha3_256_digest(data: &[u8]) -> (r: Vec<u8>)
    ensures
        r@ == sha3_256_of(data@),
        r@.len() == 32,
{
    <sha3::Sha3_256 as sha3::Digest>::digest(data).to_vec()
}

/// Relies on sha3::Sha3_384::digest: a 48-byte digest depending on the input
/// bytes alone.
#[verifier::external_body]
fn sha3_384_digest(data: &[u8]) -> (r: Vec<u8>)
    ensures
        r@ == sha3_384_of(data@),
        r@.len() == 48,
{
    <sha3::Sha3_384 as sha3::Digest>::digest(data).to_vec()
}

/// Relies on sha3::Sha3_512::digest: a 64-byte digest depending on the input
/// bytes alone.
#[verifier::external_body]
fn sha3_512_digest(data: &[u8]) -> (r: Vec<u8>)
    ensures
        r@ == sha3_512_of(data@),
        r@.len() == 64,
{
    <sha3::Sha3_512 as sha3::Digest>::digest(data).to_vec()
}

/// The digest an algorithm assigns to the given bytes.
pub open spec fn digest_of(a: HashAlgorithm, data: Seq<u8>) -> Seq<u8> {
    match a {
        HashAlgorithm::Sha1 => sha1_of(data),
        HashAlgorithm::Sha256 => sha256_of(data),
        HashAlgorithm::Sha384 => sha384_of(data),
        HashAlgorithm::Sha512 => sha512_of(data),
        HashAlgorithm::Sha3_256 => sha3_256_of(data),
        HashAlgorithm::Sha3_384 => sha3_384_of(data),
        HashAlgorithm::Sha3_512 => sha3_512_of(data),
    }
}

pub fn compute_digest(a: HashAlgorithm, data: &[u8]) -> (r: Vec<u8>)
    ensures
        r@ == digest_of(a, data@),
{
    match a {
        HashAlgorithm::Sha1 => sha1_digest(data),
        HashAlgorithm::Sha256 => sha256_digest(data),
        HashAlgorithm::Sha384 => sha384_digest(data),
        HashAlgorithm::Sha512 => sha512_digest(data),
        HashAlgorithm::Sha3_256 => sha3_256_digest(data),
        HashAlgorithm::Sha3_384 => sha3_384_digest(data),
        HashAlgorithm::Sha3_512 => sha3_512_digest(data),
    }
}

/// One computed digest of a byte buffer.
pub struct ComputedHash {
    pub algorithm: HashAlgorithm,
    pub value: Vec<u8>,
}

/// The requested algorithms with repeats dropped, keeping the first
/// occurrence of each, in order.
pub open spec fn dedup_algos(s: Seq<HashAlgorithm>) -> Seq<HashAlgorithm>
    decreases s.len(),
{
    if s.len() == 0 {
        Seq::<HashAlgorithm>::empty()
    } else {
        let init = dedup_algos(s.drop_last());
        if init.contains(s.last()) {
            init
        } else {
            init.push(s.last())
        }
    }
}

pub proof fn lemma_dedup_step(s: Seq<HashAlgorithm>, i: int)
    requires
        0 <= i < s.len(),
    ensures
        dedup_algos(s.subrange(0, i + 1)) == if dedup_algos(s.subrange(0, i)).contains(s[i]) {
            dedup_algos(s.subrange(0, i))
        } else {
            dedup_algos(s.subrange(0, i)).push(s[i])
        },
{
    assert(s.subrange(0, i + 1).drop_last() =~= s.subrange(0, i));
    assert(s.subrange(0, i + 1).last() == s[i]);
}

pub proof fn lemma_dedup_same_elems(s: Seq<HashAlgorithm>)
    ensures
        forall|a: HashAlgorithm| dedup_algos(s).contains(a) <==> s.contains(a),
        forall|i: int, j: int|
            0 <= i < j < dedup_algos(s).len() ==> dedup_algos(s)[i] != dedup_algos(s)[j],
    decreases s.len(),
{
    if s.len() > 0 {
        let init = s.drop_last();
        lemma_dedup_same_elems(init);
        assert forall|a: HashAlgorithm| init.contains(a) implies s.contains(a) by {
            let j = choose|j: int| 0 <= j < init.len() && init[j] == a;
            assert(s[j] == a);
        }
        assert(s[s.len() - 1] == s.last());
        assert forall|a: HashAlgorithm| s.contains(a) implies dedup_algos(s).contains(a) by {
            let j = choose|j: int| 0 <= j < s.len() && s[j] == a;
            if j < s.len() - 1 {
                assert(init[j] == a);
                assert(init.contains(a));
                let d = dedup_algos(init);
                let k = choose|k: int| 0 <= k < d.len() && d[k] == a;
                assert(dedup_algos(s).contains(a)) by {
                    if d.contains(s.last()) {
                        assert(dedup_algos(s)[k] == a);
                    } else {
                        assert(dedup_algos(s)[k] == a);
                    }
                }
            } else {
                let d = dedup_algos(init);
                if d.contains(s.last()) {
                    let k = choose|k: int| 0 <= k < d.len() && d[k] == s.last();
                    assert(dedup_algos(s)[k] == a);
                } else {
                    assert(dedup_algos(s)[d.len() as int] == a);
                }
            }
        }
        assert forall|a: HashAlgorithm| dedup_algos(s).contains(a) implies s.contains(a) by {
            let d = dedup_algos(init);
            let k = choose|k: int| 0 <= k < dedup_algos(s).len() && dedup_algos(s)[k] == a;
            if d.contains(s.last()) {
                assert(d[k] == a);
                assert(init.contains(a));
            } else {
                if k < d.len() {
                    assert(d[k] == a);
                    assert(init.contains(a));
                } else {
                    assert(a == s.last());
                }
            }
        }
    }
}

/// Compute each requested digest of the buffer. One result is produced per
/// distinct requested algorithm, in order of first request, and each carries
/// exactly the digest that algorithm assigns to the bytes.
pub fn make_hashes(data: &[u8], hash_algorithms: &[HashAlgorithm]) -> (r: Vec<ComputedHash>)
    ensures
        r@.map_values(|h: ComputedHash| h.algorithm) == dedup_algos(hash_algorithms@),
        forall|i: int|
            0 <= i < r@.len() ==> (#[trigger] r@[i]).value@ == digest_of(
                r@[i].algorithm,
                data@,
            ),
{
    let ghost galgos = hash_algorithms@;
    let mut r: Vec<ComputedHash> = Vec::new();
    assert(r@.map_values(|h: ComputedHash| h.algorithm) =~= dedup_algos(galgos.subrange(0, 0)));
    let mut i: usize = 0;
    while i < hash_algorithms.len()
        invariant
            0 <= i <= hash_algorithms.len(),
            galgos == hash_algorithms@,
            r@.map_values(|h: ComputedHash| h.algorithm) == dedup_algos(
                galgos.subrange(0, i as int),
            ),
            forall|k: int|
                0 <= k < r@.len() ==> (#[trigger] r@[k]).value@ == digest_of(
                    r@[k].algorithm,
                    data@,
                ),
        decreases hash_algorithms.len() - i,
    {
        proof {
            lemma_dedup_step(galgos, i as int);
        }
        let a = hash_algorithms[i];
        let mut seen = false;
        let mut k: usize = 0;
        while k < r.len()
            invariant
                0 <= k <= r.len(),
                seen == exists|j: int| 0 <= j < k && (#[trigger] r@[j]).algorithm == a,
            decreases r.len() - k,
        {
            if r[k].algorithm == a {
                seen = true;
            }
            k = k + 1;
        }
        proof {
            let pre = dedup_algos(galgos.subrange(0, i as int));
            assert(seen == pre.contains(a)) by {
                if seen {
                    let j = choose|j: int| 0 <= j < r@.len() && (#[trigger] r@[j]).algorithm == a;
                    assert(pre[j] == a);
                } else {
                    if pre.contains(a) {
                        let j = choose|j: int| 0 <= j < pre.len() && pre[j] == a;
                        assert(r@[j].algorithm == a);
                    }
                }
            }
        }
        if !seen {
            let value = compute_digest(a, data);
            r.push(ComputedHash { algorithm: a, value });
            assert(r@.map_values(|h: ComputedHash| h.algorithm) =~= dedup_algos(
                galgos.subrange(0, i as int),
            ).push(a));
        }
        i = i + 1;
    }
    assert(galgos.subrange(0, galgos.len() as int) =~= galgos);
    r
}

/// The lowercase hexadecimal text of a byte string: two digits per byte, in
/// order.
pub open spec fn hex_of(data: Seq<u8>) -> Seq<char>
    decreases data.len(),
{
    if data.len() == 0 {
        Seq::<char>::empty()
    } else {
        hex_of(data.drop_last()) + seq![
            hex_char((data.last() / 16) as u128),
            hex_char((data.last() % 16) as u128),
        ]
    }
}

/// Relies on hex::encode: two lowercase hexadecimal digits per input byte,
/// in order.
#[verifier::external_body]
pub fn hex_encode(data: &[u8]) -> (r: String)
    ensures
        r@ == hex_of(data@),
{
    hex::encode(data)
}

} // verus!
