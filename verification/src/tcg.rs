//! TCG vocabulary shared by every component: algorithm identifiers, digests
//! and event-log records, each with its mathematical view.

use vstd::prelude::*;
use vstd::slice::slice_to_vec;

verus! {

/// Identifier reported for a digest whose algorithm is not known.
pub const TPM_ALG_ERROR: u32 = 0x0;

/// SHA-1, 20 bytes.
pub const TPM_ALG_SHA1: u32 = 0x4;

/// SHA-256, 32 bytes.
pub const TPM_ALG_SHA256: u32 = 0xB;

/// SHA-384, 48 bytes.
pub const TPM_ALG_SHA384: u32 = 0xC;

/// SHA-512, 64 bytes.
pub const TPM_ALG_SHA512: u32 = 0xD;

/// Event type that marks a record of the Integrity Measurement Architecture.
pub const IMA_MEASUREMENT_EVENT: u32 = 0x14;

/// True for the four algorithms a register can be kept in.
pub open spec fn is_supported_algorithm(algo_id: u32) -> bool {
    algo_id == TPM_ALG_SHA1 || algo_id == TPM_ALG_SHA256 || algo_id == TPM_ALG_SHA384 || algo_id
        == TPM_ALG_SHA512
}

/// Canonical digest length of an algorithm in bytes, 0 for an unknown one.
pub open spec fn digest_size_spec(algo_id: u32) -> nat {
    if algo_id == TPM_ALG_SHA1 {
        20
    } else if algo_id == TPM_ALG_SHA256 {
        32
    } else if algo_id == TPM_ALG_SHA384 {
        48
    } else if algo_id == TPM_ALG_SHA512 {
        64
    } else {
        0
    }
}

/// Algorithm whose canonical digest length is `len`, `TPM_ALG_ERROR` if none.
pub open spec fn algorithm_of_size_spec(len: nat) -> u32 {
    if len == 20 {
        TPM_ALG_SHA1
    } else if len == 32 {
        TPM_ALG_SHA256
    } else if len == 48 {
        TPM_ALG_SHA384
    } else if len == 64 {
        TPM_ALG_SHA512
    } else {
        TPM_ALG_ERROR
    }
}

/// Canonical digest length of `algo_id` in bytes; 0 when the algorithm is
/// not one of the four supported ones.
pub fn get_digest_size_from_algorithm_id(algo_id: u32) -> (size: usize)
    ensures
        size == digest_size_spec(algo_id),
        size > 0 <==> is_supported_algorithm(algo_id),
{
    if algo_id == TPM_ALG_SHA1 {
        20
    } else if algo_id == TPM_ALG_SHA256 {
        32
    } else if algo_id == TPM_ALG_SHA384 {
        48
    } else if algo_id == TPM_ALG_SHA512 {
        64
    } else {
        0
    }
}

/// Algorithm inferred from the byte length of a raw digest;
/// `TPM_ALG_ERROR` when no supported algorithm has that length.
pub fn get_algorithm_id_from_digest_size(len: usize) -> (algo_id: u32)
    ensures
        algo_id == algorithm_of_size_spec(len as nat),
        is_supported_algorithm(algo_id) <==> digest_size_spec(algo_id) == len && len > 0,
        algo_id == TPM_ALG_ERROR || is_supported_algorithm(algo_id),
{
    if len == 20 {
        TPM_ALG_SHA1
    } else if len == 32 {
        TPM_ALG_SHA256
    } else if len == 48 {
        TPM_ALG_SHA384
    } else if len == 64 {
        TPM_ALG_SHA512
    } else {
        TPM_ALG_ERROR
    }
}

/// A digest as a mathematical value.
pub struct DigestView {
    pub algo_id: u32,
    pub hash: Seq<u8>,
}

/// A hash value together with the algorithm that produced it.
#[derive(Clone, Debug, PartialEq, Eq)]
pub struct TcgDigest {
    pub algo_id: u32,
    pub hash: Vec<u8>,
}

impl View for TcgDigest {
    type V = DigestView;

    open spec fn view(&self) -> DigestView {
        DigestView { algo_id: self.algo_id, hash: self.hash@ }
    }
}

impl DigestView {
    /// The algorithm is supported and the hash has its canonical length.
    pub open spec fn well_formed(self) -> bool {
        is_supported_algorithm(self.algo_id) && self.hash.len() == digest_size_spec(self.algo_id)
    }
}

impl TcgDigest {
    /// The algorithm is supported and the hash has its canonical length.
    pub open spec fn well_formed(&self) -> bool {
        self@.well_formed()
    }

    /// A copy with the same algorithm and the same bytes.
    pub fn duplicate(&self) -> (copy: TcgDigest)
        ensures
            copy@ == self@,
    {
        TcgDigest { algo_id: self.algo_id, hash: slice_to_vec(self.hash.as_slice()) }
    }

    /// Whether the algorithm is supported and the hash has its canonical
    /// length.
    pub fn is_well_formed(&self) -> (ok: bool)
        ensures
            ok == self.well_formed(),
    {
        let size = get_digest_size_from_algorithm_id(self.algo_id);
        size > 0 && self.hash.len() == size
    }
}

/// The views of a sequence of digests, in order.
pub open spec fn digest_views(digests: Seq<TcgDigest>) -> Seq<DigestView> {
    Seq::new(digests.len(), |i: int| digests[i]@)
}

/// The hash values of a sequence of digests, in order.
pub open spec fn digest_hashes(digests: Seq<DigestView>) -> Seq<Seq<u8>> {
    Seq::new(digests.len(), |i: int| digests[i].hash)
}

/// Copies a list of digests.
pub fn duplicate_digests(digests: &Vec<TcgDigest>) -> (copy: Vec<TcgDigest>)
    ensures
        digest_views(copy@) == digest_views(digests@),
{
    let mut copy: Vec<TcgDigest> = Vec::new();
    let mut i: usize = 0;
    while i < digests.len()
        invariant
            i <= digests@.len(),
            copy@.len() == i,
            forall|k: int| 0 <= k < i ==> copy@[k]@ == digests@[k]@,
        decreases digests@.len() - i,
    {
        copy.push(digests[i].duplicate());
        i = i + 1;
    }
    assert(digest_views(copy@) =~= digest_views(digests@));
    copy
}

/// The views of a list of key and value pairs, in order.
pub open spec fn pair_views(pairs: Seq<(String, String)>) -> Seq<(Seq<char>, Seq<char>)> {
    Seq::new(pairs.len(), |i: int| (pairs[i].0@, pairs[i].1@))
}

/// Copies a list of key and value pairs.
pub fn duplicate_pairs(pairs: &Vec<(String, String)>) -> (copy: Vec<(String, String)>)
    ensures
        pair_views(copy@) == pair_views(pairs@),
{
    let mut copy: Vec<(String, String)> = Vec::new();
    let mut i: usize = 0;
    while i < pairs.len()
        invariant
            i <= pairs@.len(),
            copy@.len() == i,
            forall|k: int|
                0 <= k < i ==> copy@[k].0@ == pairs@[k].0@ && copy@[k].1@ == pairs@[k].1@,
        decreases pairs@.len() - i,
    {
        let key = pairs[i].0.clone();
        let value = pairs[i].1.clone();
        copy.push((key, value));
        i = i + 1;
    }
    assert(pair_views(copy@) =~= pair_views(pairs@));
    copy
}

/// An event-log record as a mathematical value.
pub struct EventView {
    pub rec_num: u32,
    pub imr_index: u32,
    pub event_type: u32,
    pub event_size: u32,
    pub event: Seq<u8>,
    pub digests: Seq<DigestView>,
    pub extra_info: Seq<(Seq<char>, Seq<char>)>,
}

/// One record of the measurement log. `extra_info` holds the entries of a
/// string-to-string mapping as pairs of key and value.
#[derive(Clone, Debug, PartialEq, Eq)]
pub struct TcgEventlog {
    pub rec_num: u32,
    pub imr_index: u32,
    pub event_type: u32,
    pub event_size: u32,
    pub event: Vec<u8>,
    pub digests: Vec<TcgDigest>,
    pub extra_info: Vec<(String, String)>,
}

impl View for TcgEventlog {
    type V = EventView;

    open spec fn view(&self) -> EventView {
        EventView {
            rec_num: self.rec_num,
            imr_index: self.imr_index,
            event_type: self.event_type,
            event_size: self.event_size,
            event: self.event@,
            digests: digest_views(self.digests@),
            extra_info: pair_views(self.extra_info@),
        }
    }
}

impl EventView {
    /// The same record filed under another register.
    pub open spec fn with_index(self, imr_index: u32) -> EventView {
        EventView { imr_index: imr_index, ..self }
    }
}

impl TcgEventlog {
    /// A copy that holds the same values in every field.
    pub fn duplicate(&self) -> (copy: TcgEventlog)
        ensures
            copy@ == self@,
    {
        TcgEventlog {
            rec_num: self.rec_num,
            imr_index: self.imr_index,
            event_type: self.event_type,
            event_size: self.event_size,
            event: slice_to_vec(self.event.as_slice()),
            digests: duplicate_digests(&self.digests),
            extra_info: duplicate_pairs(&self.extra_info),
        }
    }
}

/// The views of a sequence of records, in order.
pub open spec fn log_view(log: Seq<TcgEventlog>) -> Seq<EventView> {
    Seq::new(log.len(), |i: int| log[i]@)
}

/// Appending a record to a log appends its view to the log's view.
pub proof fn lemma_log_view_push(log: Seq<TcgEventlog>, entry: TcgEventlog)
    ensures
        log_view(log.push(entry)) == log_view(log).push(entry@),
{
    assert(log_view(log.push(entry)) =~= log_view(log).push(entry@));
}

/// Copies a log, record by record.
pub fn duplicate_log(log: &Vec<TcgEventlog>) -> (copy: Vec<TcgEventlog>)
    ensures
        log_view(copy@) == log_view(log@),
{
    let mut copy: Vec<TcgEventlog> = Vec::new();
    let mut i: usize = 0;
    while i < log.len()
        invariant
            i <= log@.len(),
            copy@.len() == i,
            forall|k: int| 0 <= k < i ==> copy@[k]@ == log@[k]@,
        decreases log@.len() - i,
    {
        copy.push(log[i].duplicate());
        i = i + 1;
    }
    assert(log_view(copy@) =~= log_view(log@));
    copy
}

} // verus!
