//! The encodings in which an evidence source hands out log entries, and
//! their conversion to the records that the agent keeps.

use vstd::prelude::*;
use vstd::slice::slice_to_vec;
use crate::error::Error;
use crate::tcg::{
    algorithm_of_size_spec, digest_views, duplicate_digests, get_algorithm_id_from_digest_size,
    is_supported_algorithm, DigestView, EventView, TcgDigest, TcgEventlog,
};

verus! {

/// An entry that carries one digest for each algorithm in use.
#[derive(Clone, Debug, PartialEq, Eq)]
pub struct TcgImrEvent {
    pub imr_index: u32,
    pub event_type: u32,
    pub digests: Vec<TcgDigest>,
    pub event_size: u32,
    pub event: Vec<u8>,
}

/// An entry of the older format: one digest as raw bytes, whose length
/// tells the algorithm.
#[derive(Clone, Debug, PartialEq, Eq)]
pub struct TcgPcClientImrEvent {
    pub imr_index: u32,
    pub event_type: u32,
    pub digest: Vec<u8>,
    pub event_size: u32,
    pub event: Vec<u8>,
}

/// An entry of the canonical event log format, which is not handled.
#[derive(Clone, Copy, Debug, PartialEq, Eq, Structural)]
pub struct TcgCanonicalEvent {}

/// An entry as an evidence source hands it out.
#[derive(Clone, Debug, PartialEq, Eq)]
pub enum EventLogEntry {
    TcgImrEvent(TcgImrEvent),
    TcgPcClientImrEvent(TcgPcClientImrEvent),
    TcgCanonicalEvent(TcgCanonicalEvent),
}

/// An entry as a mathematical value.
pub enum EntryView {
    Imr {
        imr_index: u32,
        event_type: u32,
        digests: Seq<DigestView>,
        event_size: u32,
        event: Seq<u8>,
    },
    PcClient { imr_index: u32, event_type: u32, digest: Seq<u8>, event_size: u32, event: Seq<u8> },
    Canonical,
}

impl View for EventLogEntry {
    type V = EntryView;

    open spec fn view(&self) -> EntryView {
        match self {
            EventLogEntry::TcgImrEvent(e) => EntryView::Imr {
                imr_index: e.imr_index,
                event_type: e.event_type,
                digests: digest_views(e.digests@),
                event_size: e.event_size,
                event: e.event@,
            },
            EventLogEntry::TcgPcClientImrEvent(e) => EntryView::PcClient {
                imr_index: e.imr_index,
                event_type: e.event_type,
                digest: e.digest@,
                event_size: e.event_size,
                event: e.event@,
            },
            EventLogEntry::TcgCanonicalEvent(_) => EntryView::Canonical,
        }
    }
}

/// The views of a sequence of entries, in order.
pub open spec fn entry_views(entries: Seq<EventLogEntry>) -> Seq<EntryView> {
    Seq::new(entries.len(), |i: int| entries[i]@)
}

/// The record that an entry becomes. The digests of the first encoding are
/// kept one for one. The raw digest of the second is labelled with the
/// algorithm of its length; no algorithm of that length, and the
/// canonical encoding, are an `UnsupportedEntryShape`.
pub open spec fn converted(entry: EntryView) -> Result<EventView, Error> {
    match entry {
        EntryView::Imr { imr_index, event_type, digests, event_size, event } => Ok(
            EventView {
                rec_num: 0,
                imr_index: imr_index,
                event_type: event_type,
                event_size: event_size,
                event: event,
                digests: digests,
                extra_info: Seq::empty(),
            },
        ),
        EntryView::PcClient { imr_index, event_type, digest, event_size, event } => {
            let algo_id = algorithm_of_size_spec(digest.len());
            if is_supported_algorithm(algo_id) {
                Ok(
                    EventView {
                        rec_num: 0,
                        imr_index: imr_index,
                        event_type: event_type,
                        event_size: event_size,
                        event: event,
                        digests: seq![DigestView { algo_id: algo_id, hash: digest }],
                        extra_info: Seq::empty(),
                    },
                )
            } else {
                Err(Error::UnsupportedEntryShape)
            }
        },
        EntryView::Canonical => Err(Error::UnsupportedEntryShape),
    }
}

/// The record of an entry that carries one digest for each algorithm.
pub fn from_imr_event(event: &TcgImrEvent) -> (record: TcgEventlog)
    ensures
        Ok::<EventView, Error>(record@) == converted(EventLogEntry::TcgImrEvent(*event)@),
{
    let record = TcgEventlog {
        rec_num: 0,
        imr_index: event.imr_index,
        event_type: event.event_type,
        event_size: event.event_size,
        event: slice_to_vec(event.event.as_slice()),
        digests: duplicate_digests(&event.digests),
        extra_info: Vec::new(),
    };
    assert(record@.extra_info =~= Seq::empty());
    record
}

/// The record of an entry of the older format.
pub fn from_pc_client_event(event: &TcgPcClientImrEvent) -> (record: Result<TcgEventlog, Error>)
    ensures
        record matches Ok(r) ==> converted(EventLogEntry::TcgPcClientImrEvent(*event)@) == Ok::<
            EventView,
            Error,
        >(r@),
        record matches Err(e) ==> converted(EventLogEntry::TcgPcClientImrEvent(*event)@) == Err::<
            EventView,
            Error,
        >(e),
{
    let algo_id = get_algorithm_id_from_digest_size(event.digest.len());
    if algo_id == crate::tcg::TPM_ALG_ERROR {
        return Err(Error::UnsupportedEntryShape);
    }
    let record = TcgEventlog {
        rec_num: 0,
        imr_index: event.imr_index,
        event_type: event.event_type,
        event_size: event.event_size,
        event: slice_to_vec(event.event.as_slice()),
        digests: vec![TcgDigest { algo_id: algo_id, hash: slice_to_vec(event.digest.as_slice()) }],
        extra_info: Vec::new(),
    };
    assert(record@.extra_info =~= Seq::empty());
    assert(record@.digests =~= seq![DigestView { algo_id: algo_id, hash: event.digest@ }]);
    Ok(record)
}

/// The canonical encoding has no record: `UnsupportedEntryShape`.
pub fn from_canonical_event(event: &TcgCanonicalEvent) -> (record: Result<TcgEventlog, Error>)
    ensures
        record == Err::<TcgEventlog, Error>(Error::UnsupportedEntryShape),
{
    Err(Error::UnsupportedEntryShape)
}

/// The record that `entry` becomes.
pub fn convert_entry(entry: &EventLogEntry) -> (record: Result<TcgEventlog, Error>)
    ensures
        record matches Ok(r) ==> converted(entry@) == Ok::<EventView, Error>(r@),
        record matches Err(e) ==> converted(entry@) == Err::<EventView, Error>(e),
{
    match entry {
        EventLogEntry::TcgImrEvent(event) => Ok(from_imr_event(event)),
        EventLogEntry::TcgPcClientImrEvent(event) => from_pc_client_event(event),
        EventLogEntry::TcgCanonicalEvent(event) => from_canonical_event(event),
    }
}

} // verus!
