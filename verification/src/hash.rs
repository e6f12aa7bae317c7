//! The digest engine and the chaining rule of an integrity register.

use vstd::prelude::*;
use crate::error::Error;
use crate::tcg::{
    digest_size_spec, get_digest_size_from_algorithm_id, is_supported_algorithm, TPM_ALG_SHA1,
    TPM_ALG_SHA256, TPM_ALG_SHA384, TPM_ALG_SHA512,
};

verus! {

/// The hash functions a register can be kept in.
#[derive(Clone, Copy, Debug, PartialEq, Eq, Structural)]
pub enum HashAlgorithm {
    Sha1,
    Sha256,
    Sha384,
    Sha512,
}

impl HashAlgorithm {
    /// TCG identifier of the algorithm.
    pub open spec fn id_spec(self) -> u32 {
        match self {
            HashAlgorithm::Sha1 => TPM_ALG_SHA1,
            HashAlgorithm::Sha256 => TPM_ALG_SHA256,
            HashAlgorithm::Sha384 => TPM_ALG_SHA384,
            HashAlgorithm::Sha512 => TPM_ALG_SHA512,
        }
    }

    /// TCG identifier of the algorithm.
    pub fn id(self) -> (algo_id: u32)
        ensures
            algo_id == self.id_spec(),
            is_supported_algorithm(algo_id),
    {
        match self {
            HashAlgorithm::Sha1 => TPM_ALG_SHA1,
            HashAlgorithm::Sha256 => TPM_ALG_SHA256,
            HashAlgorithm::Sha384 => TPM_ALG_SHA384,
            HashAlgorithm::Sha512 => TPM_ALG_SHA512,
        }
    }

    /// The algorithm with the given TCG identifier, if it is supported.
    pub fn from_id(algo_id: u32) -> (algorithm: Option<HashAlgorithm>)
        ensures
            algorithm is Some <==> is_supported_algorithm(algo_id),
            algorithm matches Some(a) ==> a.id_spec() == algo_id,
    {
        if algo_id == TPM_ALG_SHA1 {
            Some(HashAlgorithm::Sha1)
        } else if algo_id == TPM_ALG_SHA256 {
            Some(HashAlgorithm::Sha256)
        } else if algo_id == TPM_ALG_SHA384 {
            Some(HashAlgorithm::Sha384)
        } else if algo_id == TPM_ALG_SHA512 {
            Some(HashAlgorithm::Sha512)
        } else {
            None
        }
    }
}

/// The error stack of the OpenSSL bindings, carried through unread.
#[verifier::external_type_specification]
#[verifier::external_body]
pub struct ExErrorStack(openssl::error::ErrorStack);

/// The digest of `data` under the algorithm with TCG identifier `algo_id`,
/// as the OpenSSL digest engine computes it.
pub uninterp spec fn sha_digest(algo_id: u32, data: Seq<u8>) -> Seq<u8>;

/// Calls `openssl::hash::hash` with the message digest that belongs to
/// `algorithm`. When the engine reports no fault, the bytes returned are the
/// digest of `data`. Nothing is claimed of when the engine fails, nor of
/// how many bytes it returns.
#[verifier::external_body]
fn openssl_hash(algorithm: HashAlgorithm, data: &[u8]) -> (outcome: Result<
    Vec<u8>,
    openssl::error::ErrorStack,
>)
    ensures
        outcome matches Ok(bytes) ==> bytes@ == sha_digest(algorithm.id_spec(), data@),
{
    let md = match algorithm {
        HashAlgorithm::Sha1 => openssl::hash::MessageDigest::sha1(),
        HashAlgorithm::Sha256 => openssl::hash::MessageDigest::sha256(),
        HashAlgorithm::Sha384 => openssl::hash::MessageDigest::sha384(),
        HashAlgorithm::Sha512 => openssl::hash::MessageDigest::sha512(),
    };
    match openssl::hash::hash(md, data) {
        Ok(bytes) => Ok(bytes.to_vec()),
        Err(stack) => Err(stack),
    }
}

/// What the engine's answer means to the caller of `algorithm`: the
/// digest, where the engine gave one of the algorithm's canonical length;
/// `HashError` where it reported a fault or gave bytes of another length.
pub fn checked_digest(
    algorithm: HashAlgorithm,
    outcome: Result<Vec<u8>, openssl::error::ErrorStack>,
) -> (digest: Result<Vec<u8>, Error>)
    ensures
        (outcome matches Ok(b) && b@.len() == digest_size_spec(algorithm.id_spec())) ==> (
        digest matches Ok(d) && d@ == outcome->Ok_0@),
        !(outcome matches Ok(b) && b@.len() == digest_size_spec(algorithm.id_spec())) ==> digest
            == Err::<Vec<u8>, Error>(Error::HashError),
{
    match outcome {
        Ok(bytes) => {
            if bytes.len() == get_digest_size_from_algorithm_id(algorithm.id()) {
                Ok(bytes)
            } else {
                Err(Error::HashError)
            }
        },
        Err(_) => Err(Error::HashError),
    }
}

/// Hashes `data` with `algorithm`. A digest that has not the canonical
/// length of the algorithm counts as a fault of the engine.
pub fn hash_bytes(algorithm: HashAlgorithm, data: &[u8]) -> (digest: Result<Vec<u8>, Error>)
    ensures
        digest matches Ok(d) ==> d@ == sha_digest(algorithm.id_spec(), data@) && d@.len()
            == digest_size_spec(algorithm.id_spec()),
        digest matches Err(e) ==> e == Error::HashError,
{
    checked_digest(algorithm, openssl_hash(algorithm, data))
}

/// The chaining rule: the register after folding `digest` into `register`.
pub open spec fn extend_spec(algo_id: u32, register: Seq<u8>, digest: Seq<u8>) -> Seq<u8> {
    sha_digest(algo_id, register + digest)
}

/// The register after folding each of `digests` into `register`, first to
/// last.
pub open spec fn replay_spec(algo_id: u32, register: Seq<u8>, digests: Seq<Seq<u8>>) -> Seq<u8>
    decreases digests.len(),
{
    if digests.len() == 0 {
        register
    } else {
        extend_spec(algo_id, replay_spec(algo_id, register, digests.drop_last()), digests.last())
    }
}

/// Replaying a sequence of digests in two parts gives what replaying it in
/// one gives.
pub proof fn lemma_replay_concat(
    algo_id: u32,
    register: Seq<u8>,
    first: Seq<Seq<u8>>,
    second: Seq<Seq<u8>>,
)
    ensures
        replay_spec(algo_id, register, first + second) == replay_spec(
            algo_id,
            replay_spec(algo_id, register, first),
            second,
        ),
    decreases second.len(),
{
    if second.len() == 0 {
        assert(first + second =~= first);
    } else {
        lemma_replay_concat(algo_id, register, first, second.drop_last());
        assert((first + second).drop_last() =~= first + second.drop_last());
        assert((first + second).last() == second.last());
    }
}

/// Replaying one digest is one extension.
pub proof fn lemma_replay_one(algo_id: u32, register: Seq<u8>, digest: Seq<u8>)
    ensures
        replay_spec(algo_id, register, seq![digest]) == extend_spec(algo_id, register, digest),
{
    assert(seq![digest].drop_last() =~= Seq::<Seq<u8>>::empty());
    reveal_with_fuel(replay_spec, 2);
}

/// Replay is a function of the register and the digests: the same digests
/// in the same order, from the same register, give the same register.
pub proof fn lemma_replay_deterministic(
    algo_id: u32,
    register_a: Seq<u8>,
    register_b: Seq<u8>,
    digests_a: Seq<Seq<u8>>,
    digests_b: Seq<Seq<u8>>,
)
    requires
        register_a == register_b,
        digests_a.len() == digests_b.len(),
        forall|i: int| 0 <= i < digests_a.len() ==> digests_a[i] == digests_b[i],
    ensures
        replay_spec(algo_id, register_a, digests_a) == replay_spec(algo_id, register_b, digests_b),
{
    assert(digests_a =~= digests_b);
}

/// The digest function tells `a` and `b` apart: it gives them the same
/// digest only if they are the same.
pub open spec fn told_apart(algo_id: u32, a: Seq<u8>, b: Seq<u8>) -> bool {
    sha_digest(algo_id, a) == sha_digest(algo_id, b) ==> a == b
}

/// Extension is sensitive to order: folding two different digests into a
/// register in one order and in the other gives different registers,
/// provided the two registers in between have one length and the digest
/// function tells the two last inputs apart.
pub proof fn lemma_extend_order_sensitive(
    algo_id: u32,
    register: Seq<u8>,
    first: Seq<u8>,
    second: Seq<u8>,
)
    requires
        first != second,
    ensures
        ({
            let after_first = extend_spec(algo_id, register, first);
            let after_second = extend_spec(algo_id, register, second);
            after_first.len() == after_second.len() && told_apart(
                algo_id,
                after_first + second,
                after_second + first,
            ) ==> replay_spec(algo_id, register, seq![first, second]) != replay_spec(
                algo_id,
                register,
                seq![second, first],
            )
        }),
{
    let after_first = extend_spec(algo_id, register, first);
    let after_second = extend_spec(algo_id, register, second);
    let one = seq![first, second];
    let other = seq![second, first];
    assert(one.drop_last() =~= seq![first]);
    assert(other.drop_last() =~= seq![second]);
    lemma_replay_one(algo_id, register, first);
    lemma_replay_one(algo_id, register, second);
    assert(replay_spec(algo_id, register, one) == extend_spec(algo_id, after_first, second));
    assert(replay_spec(algo_id, register, other) == extend_spec(algo_id, after_second, first));
    if after_first.len() == after_second.len() && after_first + second == after_second + first {
        let n = after_first.len() as int;
        assert((after_first + second).subrange(n, (after_first + second).len() as int) =~= second);
        assert((after_second + first).subrange(n, (after_second + first).len() as int) =~= first);
    }
}

/// Folds `digest` into `register`: the new value is the hash of the old
/// value followed by the digest.
pub fn extend_register(algorithm: HashAlgorithm, register: &Vec<u8>, digest: &Vec<u8>) -> (next:
    Result<Vec<u8>, Error>)
    ensures
        next matches Ok(value) ==> value@ == extend_spec(algorithm.id_spec(), register@, digest@)
            && value@.len() == digest_size_spec(algorithm.id_spec()),
        next matches Err(e) ==> e == Error::HashError,
{
    let mut joined: Vec<u8> = Vec::new();
    let mut i: usize = 0;
    while i < register.len()
        invariant
            i <= register@.len(),
            joined@ == register@.subrange(0, i as int),
        decreases register@.len() - i,
    {
        joined.push(register[i]);
        i = i + 1;
    }
    let mut j: usize = 0;
    while j < digest.len()
        invariant
            j <= digest@.len(),
            joined@ == register@ + digest@.subrange(0, j as int),
        decreases digest@.len() - j,
    {
        joined.push(digest[j]);
        j = j + 1;
    }
    assert(joined@ == register@ + digest@);
    hash_bytes(algorithm, joined.as_slice())
}

} // verus!
