//! One tenant: a register that starts from the baseline and is extended by
//! the container's own events, and the log of those events.

use vstd::prelude::*;
use vstd::slice::slice_to_vec;
use vstd::string::StringSliceAdditionalSpecFns;
use vstd::utf8::{encode_utf8, partial_valid_utf8_extend_ascii_block, valid_utf8};
use crate::cgroup::{
    all_hex, all_hex_or_underscore, container_id_spec, is_hex_digit, parse_id_bytes,
};
use crate::error::Error;
use crate::hash::{extend_register, extend_spec, lemma_replay_one, replay_spec, HashAlgorithm};
use crate::measurement::{lemma_logged_replayable, RegisterView};
use crate::tcg::{
    digest_hashes, digest_size_spec, digest_views, get_digest_size_from_algorithm_id,
    lemma_log_view_push, log_view, DigestView, EventView, TcgDigest, TcgEventlog,
};
use crate::text::decode_text;

verus! {

/// Every digest of `digests` is as long as `register`.
pub open spec fn lengths_match(register: Seq<u8>, digests: Seq<DigestView>) -> bool {
    forall|i: int| 0 <= i < digests.len() ==> (#[trigger] digests[i]).hash.len() == register.len()
}

/// The register of `state` can take the digests of `event`: it is well
/// formed and each digest has its length.
pub open spec fn extendable(state: RegisterView, event: EventView) -> bool {
    state.imr.well_formed() && lengths_match(state.imr.hash, event.digests)
}

/// The container after `event`: each digest of the event is folded into
/// the register, first to last, and the event is filed in the log under
/// `imr_index`.
pub open spec fn extended(state: RegisterView, imr_index: u32, event: EventView) -> RegisterView {
    RegisterView {
        imr: DigestView {
            algo_id: state.imr.algo_id,
            hash: replay_spec(state.imr.algo_id, state.imr.hash, digest_hashes(event.digests)),
        },
        log: state.log.push(event.with_index(imr_index)),
    }
}

/// Extending keeps a container replayable: the register is still what the
/// digests of the log give, in the log's order.
pub proof fn lemma_extended_replayable(state: RegisterView, imr_index: u32, event: EventView)
    requires
        state.replayable(),
    ensures
        extended(state, imr_index, event).replayable(),
{
    lemma_logged_replayable(state, event.with_index(imr_index));
}

/// Two containers with the same register, extended by events with the same
/// digests, have the same register afterwards, whatever else the events
/// hold.
pub proof fn lemma_extended_deterministic(
    state_a: RegisterView,
    state_b: RegisterView,
    index_a: u32,
    index_b: u32,
    event_a: EventView,
    event_b: EventView,
)
    requires
        state_a.imr == state_b.imr,
        event_a.digests == event_b.digests,
    ensures
        extended(state_a, index_a, event_a).imr == extended(state_b, index_b, event_b).imr,
{
}

/// The container after each of `events`, first to last.
pub open spec fn extended_all(
    state: RegisterView,
    imr_index: u32,
    events: Seq<EventView>,
) -> RegisterView
    decreases events.len(),
{
    if events.len() == 0 {
        state
    } else {
        extended(extended_all(state, imr_index, events.drop_last()), imr_index, events.last())
    }
}

/// The register after a run of events is a function of the register before
/// and of the digests of the events in their order, and of nothing else:
/// not of the events' data, their numbers or types, nor of the container
/// that holds the register.
pub proof fn lemma_extended_all_deterministic(
    state_a: RegisterView,
    state_b: RegisterView,
    index_a: u32,
    index_b: u32,
    events_a: Seq<EventView>,
    events_b: Seq<EventView>,
)
    requires
        state_a.imr == state_b.imr,
        events_a.len() == events_b.len(),
        forall|i: int| 0 <= i < events_a.len() ==> events_a[i].digests == events_b[i].digests,
    ensures
        extended_all(state_a, index_a, events_a).imr == extended_all(
            state_b,
            index_b,
            events_b,
        ).imr,
    decreases events_a.len(),
{
    if events_a.len() > 0 {
        lemma_extended_all_deterministic(
            state_a,
            state_b,
            index_a,
            index_b,
            events_a.drop_last(),
            events_b.drop_last(),
        );
    }
}

/// Extending by an event with one digest is one extension: the register
/// becomes the hash of its old value followed by that digest.
pub proof fn lemma_extended_one_digest(state: RegisterView, imr_index: u32, event: EventView)
    requires
        event.digests.len() == 1,
    ensures
        extended(state, imr_index, event).imr.hash == extend_spec(
            state.imr.algo_id,
            state.imr.hash,
            event.digests[0].hash,
        ),
{
    assert(digest_hashes(event.digests) =~= seq![event.digests[0].hash]);
    lemma_replay_one(state.imr.algo_id, state.imr.hash, event.digests[0].hash);
}

/// Bytes below 128 are text in UTF-8 as they stand.
pub proof fn lemma_ascii_is_utf8(bytes: Seq<u8>)
    requires
        forall|i: int| 0 <= i < bytes.len() ==> #[trigger] bytes[i] <= 0x7f,
    ensures
        valid_utf8(bytes),
{
    assert(bytes.subrange(0, 0) =~= Seq::<u8>::empty());
    assert(valid_utf8(bytes.subrange(0, 0)));
    partial_valid_utf8_extend_ascii_block(bytes, 0, bytes.len() as int);
    assert(bytes.subrange(0, bytes.len() as int) =~= bytes);
}

/// An identity that a cgroup path names is text in UTF-8.
pub proof fn lemma_container_id_is_utf8(path: Seq<u8>)
    requires
        container_id_spec(path) is Some,
    ensures
        valid_utf8(container_id_spec(path)->0),
{
    let id = container_id_spec(path)->0;
    assert(all_hex(id) || all_hex_or_underscore(id));
    assert forall|i: int| 0 <= i < id.len() implies #[trigger] id[i] <= 0x7f by {
        if all_hex(id) {
            assert(is_hex_digit(id[i]));
        } else {
            assert(is_hex_digit(id[i]) || id[i] == 0x5f);
        }
    }
    lemma_ascii_is_utf8(id);
}

/// A register of a tenant and the log of its events.
pub struct Container {
    imr: TcgDigest,
    event_logs: Vec<TcgEventlog>,
}

impl View for Container {
    type V = RegisterView;

    closed spec fn view(&self) -> RegisterView {
        RegisterView { imr: self.imr@, log: log_view(self.event_logs@) }
    }
}

impl Container {
    /// A container that starts from the register `imr` and the log
    /// `event_logs`.
    pub fn new(imr: TcgDigest, event_logs: Vec<TcgEventlog>) -> (container: Container)
        ensures
            container@.imr == imr@,
            container@.log == log_view(event_logs@),
    {
        Container { imr, event_logs }
    }

    /// The identity of the container that the cgroup path `cgpath` names.
    ///
    /// Below the slice of Kubernetes this is the UUID of the pod, taken
    /// from the component `...pod<uuid>.slice`, with an underscore in place
    /// of each hyphen. Below the system slice it is the identifier of 32 or
    /// 64 hexadecimal digits in a component that ends in `<id>.scope`.
    /// A path that holds neither marker, or no such component behind it,
    /// is a `ParseError`.
    pub fn parse_id(cgpath: &str) -> (id: Result<String, Error>)
        ensures
            id matches Ok(text) ==> container_id_spec(cgpath.spec_bytes()) == Some(
                encode_utf8(text@),
            ),
            id matches Err(e) ==> e == Error::ParseError && container_id_spec(cgpath.spec_bytes())
                is None,
    {
        match parse_id_bytes(cgpath.as_bytes()) {
            Ok(bytes) => {
                proof {
                    lemma_container_id_is_utf8(cgpath.spec_bytes());
                }
                match decode_text(bytes) {
                    Some(text) => Ok(text),
                    None => Err(Error::ParseError),
                }
            },
            Err(e) => Err(e),
        }
    }

    /// The register.
    pub fn imr(&self) -> (imr: &TcgDigest)
        ensures
            imr@ == self@.imr,
    {
        &self.imr
    }

    /// The log: the baseline's records, then the container's own events.
    pub fn event_logs(&self) -> (log: &Vec<TcgEventlog>)
        ensures
            log_view(log@) == self@.log,
    {
        &self.event_logs
    }

    /// Extends the register by every digest of `event`, in order, each time
    /// to the hash of the register followed by the digest as it stands, and
    /// files the event in the log under `imr_index`.
    ///
    /// Nothing changes unless all of it succeeds. A register that is not
    /// well formed, or a digest of another length than the register, is an
    /// `AlgorithmMismatch`; a fault of the digest engine is a `HashError`,
    /// which an event without digests cannot meet.
    pub fn extend_imr(&mut self, imr_index: u32, event: TcgEventlog) -> (done: Result<(), Error>)
        ensures
            done is Ok ==> extendable(old(self)@, event@) && final(self)@ == extended(
                old(self)@,
                imr_index,
                event@,
            ) && final(self)@.imr.well_formed(),
            done is Ok ==> final(self)@.imr.algo_id == old(self)@.imr.algo_id,
            done is Ok ==> final(self)@.imr.hash.len() == old(self)@.imr.hash.len(),
            done is Err ==> final(self)@ == old(self)@,
            !extendable(old(self)@, event@) ==> done == Err::<(), Error>(Error::AlgorithmMismatch),
            extendable(old(self)@, event@) ==> done is Ok || (done == Err::<(), Error>(
                Error::HashError,
            ) && event@.digests.len() > 0),
            extendable(old(self)@, event@) && event@.digests.len() == 0 ==> done is Ok,
    {
        let algorithm = match HashAlgorithm::from_id(self.imr.algo_id) {
            Some(algorithm) => algorithm,
            None => { return Err(Error::AlgorithmMismatch); },
        };
        let size = get_digest_size_from_algorithm_id(self.imr.algo_id);
        if self.imr.hash.len() != size {
            return Err(Error::AlgorithmMismatch);
        }
        let ghost views = event@.digests;
        let mut i: usize = 0;
        while i < event.digests.len()
            invariant
                i <= event.digests@.len(),
                views == digest_views(event.digests@),
                self.imr.hash@.len() == size,
                forall|k: int| 0 <= k < i ==> (#[trigger] views[k]).hash.len() == size,
            decreases event.digests@.len() - i,
        {
            if event.digests[i].hash.len() != size {
                assert(views[i as int].hash.len() != size);
                return Err(Error::AlgorithmMismatch);
            }
            i = i + 1;
        }
        assert(extendable(self@, event@));
        let ghost hashes = digest_hashes(views);
        let mut register = slice_to_vec(self.imr.hash.as_slice());
        let mut j: usize = 0;
        assert(hashes.take(0) =~= Seq::<Seq<u8>>::empty());
        while j < event.digests.len()
            invariant
                j <= event.digests@.len(),
                views == digest_views(event.digests@),
                hashes == digest_hashes(views),
                extendable(old(self)@, event@),
                algorithm.id_spec() == self.imr.algo_id,
                size == digest_size_spec(self.imr.algo_id),
                register@.len() == size,
                register@ == replay_spec(self.imr.algo_id, self.imr.hash@, hashes.take(j as int)),
            decreases event.digests@.len() - j,
        {
            proof {
                assert(hashes.take(j + 1).drop_last() =~= hashes.take(j as int));
                assert(hashes.take(j + 1).last() == event.digests@[j as int].hash@);
            }
            register = match extend_register(algorithm, &register, &event.digests[j].hash) {
                Ok(next) => next,
                Err(e) => { return Err(e); },
            };
            j = j + 1;
        }
        assert(hashes.take(j as int) =~= hashes);
        let entry = TcgEventlog {
            rec_num: event.rec_num,
            imr_index: imr_index,
            event_type: event.event_type,
            event_size: event.event_size,
            event: event.event,
            digests: event.digests,
            extra_info: event.extra_info,
        };
        proof {
            lemma_log_view_push(self.event_logs@, entry);
            assert(entry@ == event@.with_index(imr_index));
        }
        self.imr.hash = register;
        self.event_logs.push(entry);
        Ok(())
    }
}

} // verus!
