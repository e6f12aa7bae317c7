//! The agent: routes new log entries to the containers they belong to and
//! answers queries as far as the policy lets it.

use vstd::prelude::*;
use vstd::slice::slice_to_vec;
use vstd::utf8::{decode_utf8, encode_utf8_decode_utf8, valid_utf8};
use crate::bytes::{field_views, split_bytes, split_spec};
use crate::cgroup::{container_id_spec, names_container, parse_id_bytes, path_names_container};
use crate::container::{
    extendable, extended, lemma_container_id_is_utf8, lemma_extended_replayable, Container,
};
use crate::error::Error;
use crate::eventlog::{convert_entry, converted, entry_views, EntryView, EventLogEntry};
use crate::measurement::{
    measure_all, policy_values, table_view, zero_register, Measurement, RegisterView,
};
use crate::nonce::{base64_bytes, base64_text, bind_nonce, bound_nonce, encodable};
use crate::policy::{algorithm_by_name, PolicyConfig};
use crate::registry::Registry;
use crate::tcg::{
    duplicate_log, lemma_log_view_push, log_view, DigestView, EventView, TcgDigest, TcgEventlog,
    IMA_MEASUREMENT_EVENT,
};
use crate::text::decode_text;

verus! {

/// The integrity measurement registers.
#[allow(non_camel_case_types)]
#[derive(Clone, Copy, Debug, PartialEq, Eq, Structural)]
pub enum IMR {
    FIRMWARE,
    KERNEL,
    SYSTEM,
    CONTAINER,
}

impl IMR {
    /// Number of the register.
    pub open spec fn index_spec(self) -> u32 {
        match self {
            IMR::FIRMWARE => 0,
            IMR::KERNEL => 1,
            IMR::SYSTEM => 2,
            IMR::CONTAINER => 3,
        }
    }

    /// Number of the register.
    pub fn index(self) -> (index: u32)
        ensures
            index == self.index_spec(),
    {
        match self {
            IMR::FIRMWARE => 0,
            IMR::KERNEL => 1,
            IMR::SYSTEM => 2,
            IMR::CONTAINER => 3,
        }
    }

    /// The register with the given number, if there is one.
    pub fn from_index(index: u32) -> (register: Option<IMR>)
        ensures
            register is Some <==> index <= 3,
            register matches Some(r) ==> r.index_spec() == index,
    {
        if index == 0 {
            Some(IMR::FIRMWARE)
        } else if index == 1 {
            Some(IMR::KERNEL)
        } else if index == 2 {
            Some(IMR::SYSTEM)
        } else if index == 3 {
            Some(IMR::CONTAINER)
        } else {
            None
        }
    }
}

/// The agent as a mathematical value.
pub struct AgentView {
    /// The baseline, once the agent is initialized.
    pub baseline: Option<RegisterView>,
    /// Whether the policy isolates containers from each other.
    pub isolated: bool,
    /// The containers seen so far, by identity.
    pub containers: Map<Seq<char>, RegisterView>,
    /// Every entry fetched so far, oldest first.
    pub log: Seq<EventView>,
}

impl AgentView {
    /// What holds of every agent: isolation needs a baseline, each register
    /// has the length of its algorithm, each register is what replaying its
    /// log gives, and each digest in the baseline's log has the length of
    /// the algorithm.
    pub open spec fn valid(self) -> bool {
        &&& self.isolated ==> self.baseline is Some
        &&& self.baseline matches Some(baseline) ==> baseline.imr.well_formed()
            && baseline.replayable() && baseline.canonical_log()
        &&& forall|id: Seq<char>| #[trigger]
            self.containers.dom().contains(id) ==> self.containers[id].imr.well_formed()
                && self.containers[id].replayable()
    }
}

/// The separator of the fields of a container-attribution record.
pub const FIELD_SEPARATOR: u8 = 0x20;

/// Number of fields of a container-attribution record.
pub const RECORD_FIELDS: usize = 4;

/// Position of the cgroup path among the fields of a record.
pub const CGROUP_FIELD: usize = 2;

/// The cgroup path of a container-attribution record: the third of exactly
/// four fields that spaces part, where it names a pod or a container.
pub open spec fn cgroup_field(data: Seq<u8>) -> Option<Seq<u8>> {
    let fields = split_spec(data, FIELD_SEPARATOR);
    if fields.len() == RECORD_FIELDS && names_container(fields[CGROUP_FIELD as int]) {
        Some(fields[CGROUP_FIELD as int])
    } else {
        None
    }
}

/// The agent with the container `id` set to `container`.
pub open spec fn with_container(
    state: AgentView,
    id: Seq<char>,
    container: RegisterView,
) -> AgentView {
    AgentView { containers: state.containers.insert(id, container), ..state }
}

/// The agent after an event was offered to the containers.
///
/// An event whose data is no container-attribution record changes
/// nothing. Else the container that the record's cgroup path names is
/// extended by the event; on its first sighting it starts from the
/// baseline.
pub open spec fn routed(state: AgentView, event: EventView) -> Result<AgentView, Error> {
    if !valid_utf8(event.event) {
        Err(Error::InvalidEncoding)
    } else {
        match cgroup_field(event.event) {
            None => Ok(state),
            Some(path) => match container_id_spec(path) {
                None => Err(Error::ParseError),
                Some(id_bytes) => {
                    let id = decode_utf8(id_bytes);
                    let origin = if state.containers.dom().contains(id) {
                        Some(state.containers[id])
                    } else {
                        state.baseline
                    };
                    match origin {
                        None => Err(Error::NotInitialized),
                        Some(container) => if extendable(container, event) {
                            Ok(
                                with_container(
                                    state,
                                    id,
                                    extended(container, IMR::CONTAINER.index_spec(), event),
                                ),
                            )
                        } else {
                            Err(Error::AlgorithmMismatch)
                        },
                    }
                },
            },
        }
    }
}

/// The identity of the container that the record in `event` names, if it
/// names one.
pub open spec fn named_container(event: EventView) -> Option<Seq<char>> {
    match cgroup_field(event.event) {
        None => None,
        Some(path) => match container_id_spec(path) {
            None => None,
            Some(id_bytes) => Some(decode_utf8(id_bytes)),
        },
    }
}

/// An event that is offered to the containers touches one container at
/// most, the one it names. That container is extended by the event, from
/// what it was, or from the baseline if the agent sees it for the first
/// time; every other container, the baseline and the agent's own log stay
/// as they are. An event that names no container changes nothing.
pub proof fn lemma_routed_one_container(state: AgentView, event: EventView)
    requires
        routed(state, event) is Ok,
    ensures
        ({
            let next = routed(state, event)->Ok_0;
            &&& next.baseline == state.baseline
            &&& next.isolated == state.isolated
            &&& next.log == state.log
            &&& named_container(event) is None ==> next == state
            &&& named_container(event) matches Some(id) ==> ({
                let origin = if state.containers.dom().contains(id) {
                    state.containers[id]
                } else {
                    state.baseline->0
                };
                &&& !state.containers.dom().contains(id) ==> state.baseline is Some
                &&& extendable(origin, event)
                &&& next.containers == state.containers.insert(
                    id,
                    extended(origin, IMR::CONTAINER.index_spec(), event),
                )
                &&& forall|other: Seq<char>|
                    other != id ==> (next.containers.dom().contains(other)
                        == state.containers.dom().contains(other)) && (
                    #[trigger] state.containers.dom().contains(other) ==> next.containers[other]
                        == state.containers[other])
            })
        }),
{
}

/// The agent after one entry of the evidence source: the entry is
/// converted, offered to the containers if it is a measurement of IMA, and
/// appended to the log.
pub open spec fn ingested(state: AgentView, entry: EntryView) -> Result<AgentView, Error> {
    match converted(entry) {
        Err(e) => Err(e),
        Ok(event) => {
            let offered = if event.event_type == IMA_MEASUREMENT_EVENT {
                routed(state, event)
            } else {
                Ok(state)
            };
            match offered {
                Err(e) => Err(e),
                Ok(next) => Ok(AgentView { log: next.log.push(event), ..next }),
            }
        },
    }
}

/// The agent after a run of entries, taken first to last, as long as none
/// fails.
pub open spec fn ingested_all(state: AgentView, entries: Seq<EntryView>) -> Result<AgentView, Error>
    decreases entries.len(),
{
    if entries.len() == 0 {
        Ok(state)
    } else {
        match ingested_all(state, entries.drop_last()) {
            Err(e) => Err(e),
            Ok(next) => ingested(next, entries.last()),
        }
    }
}

/// The register `after` has grown from `before`: it keeps the algorithm,
/// and its log starts with the log of `before`.
pub open spec fn grown_from(before: RegisterView, after: RegisterView) -> bool {
    &&& after.imr.algo_id == before.imr.algo_id
    &&& before.log.len() <= after.log.len()
    &&& after.log.subrange(0, before.log.len() as int) == before.log
}

/// The agent `after` has grown from `before`: the baseline and the policy
/// are the same, the log starts with the log of `before`, no container has
/// left, each container of `before` has grown, and each new container has
/// grown from the baseline.
pub open spec fn agent_grown_from(before: AgentView, after: AgentView) -> bool {
    &&& after.baseline == before.baseline
    &&& after.isolated == before.isolated
    &&& before.log.len() <= after.log.len()
    &&& after.log.subrange(0, before.log.len() as int) == before.log
    &&& forall|id: Seq<char>| #[trigger]
        before.containers.dom().contains(id) ==> after.containers.dom().contains(id) && grown_from(
            before.containers[id],
            after.containers[id],
        )
    &&& forall|id: Seq<char>| #[trigger]
        after.containers.dom().contains(id) && !before.containers.dom().contains(id) ==> (
        before.baseline matches Some(baseline) && grown_from(baseline, after.containers[id]))
}

/// An agent has grown from itself.
pub proof fn lemma_grown_reflexive(state: AgentView)
    ensures
        agent_grown_from(state, state),
{
    assert(state.log.subrange(0, state.log.len() as int) =~= state.log);
    assert forall|id: Seq<char>| #[trigger] state.containers.dom().contains(id) implies grown_from(
        state.containers[id],
        state.containers[id],
    ) by {
        let log = state.containers[id].log;
        assert(log.subrange(0, log.len() as int) =~= log);
    }
}

/// Growth adds up.
pub proof fn lemma_grown_transitive(first: AgentView, second: AgentView, third: AgentView)
    requires
        agent_grown_from(first, second),
        agent_grown_from(second, third),
    ensures
        agent_grown_from(first, third),
{
    assert(third.log.subrange(0, first.log.len() as int) =~= second.log.subrange(
        0,
        first.log.len() as int,
    ));
    assert forall|id: Seq<char>| #[trigger]
        first.containers.dom().contains(id) implies third.containers.dom().contains(id)
        && grown_from(first.containers[id], third.containers[id]) by {
        assert(second.containers.dom().contains(id));
        let a = first.containers[id].log;
        let b = second.containers[id].log;
        let c = third.containers[id].log;
        assert(c.subrange(0, a.len() as int) =~= b.subrange(0, a.len() as int));
    }
    assert forall|id: Seq<char>| #[trigger]
        third.containers.dom().contains(id) && !first.containers.dom().contains(id) implies (
    first.baseline matches Some(baseline) && grown_from(baseline, third.containers[id])) by {
        if second.containers.dom().contains(id) {
            let a = first.baseline->0.log;
            let b = second.containers[id].log;
            let c = third.containers[id].log;
            assert(c.subrange(0, a.len() as int) =~= b.subrange(0, a.len() as int));
        }
    }
}

/// Offering an event to the containers removes none and rewrites none: a
/// container is created once, from the baseline, and from then on only
/// grows.
pub proof fn lemma_routed_grows(state: AgentView, event: EventView)
    requires
        routed(state, event) is Ok,
    ensures
        agent_grown_from(state, routed(state, event)->Ok_0),
{
    let next = routed(state, event)->Ok_0;
    assert(state.log.subrange(0, state.log.len() as int) =~= state.log);
    assert forall|id: Seq<char>| #[trigger]
        state.containers.dom().contains(id) implies next.containers.dom().contains(id)
        && grown_from(state.containers[id], next.containers[id]) by {
        let before = state.containers[id].log;
        let after = next.containers[id].log;
        assert(after.subrange(0, before.len() as int) =~= before);
    }
    assert forall|id: Seq<char>| #[trigger]
        next.containers.dom().contains(id) && !state.containers.dom().contains(id) implies (
    state.baseline matches Some(baseline) && grown_from(baseline, next.containers[id])) by {
        let before = state.baseline->0.log;
        let after = next.containers[id].log;
        assert(after.subrange(0, before.len() as int) =~= before);
    }
}

/// Taking entries in removes nothing and rewrites nothing: the log and
/// every container only grow, and the baseline stays as it is.
pub proof fn lemma_ingested_grows(state: AgentView, entries: Seq<EntryView>)
    requires
        ingested_all(state, entries) is Ok,
    ensures
        agent_grown_from(state, ingested_all(state, entries)->Ok_0),
        ingested_all(state, entries)->Ok_0.log.len() == state.log.len() + entries.len(),
    decreases entries.len(),
{
    if entries.len() == 0 {
        lemma_grown_reflexive(state);
    } else {
        lemma_ingested_grows(state, entries.drop_last());
        let middle = ingested_all(state, entries.drop_last())->Ok_0;
        let end = ingested_all(state, entries)->Ok_0;
        let event = converted(entries.last())->Ok_0;
        let offered = if event.event_type == IMA_MEASUREMENT_EVENT {
            routed(middle, event)->Ok_0
        } else {
            middle
        };
        if event.event_type == IMA_MEASUREMENT_EVENT {
            lemma_routed_grows(middle, event);
        } else {
            lemma_grown_reflexive(middle);
        }
        assert(agent_grown_from(offered, end)) by {
            assert(end.log.subrange(0, offered.log.len() as int) =~= offered.log);
            assert forall|id: Seq<char>| #[trigger]
                offered.containers.dom().contains(id) implies grown_from(
                offered.containers[id],
                end.containers[id],
            ) by {
                let log = offered.containers[id].log;
                assert(log.subrange(0, log.len() as int) =~= log);
            }
        }
        lemma_grown_transitive(middle, offered, end);
        lemma_grown_transitive(state, middle, end);
    }
}

/// The event has something for the digest engine to do: it is a
/// container-attribution record, so that a container is extended by it,
/// and it holds at least one digest to fold into the register.
pub open spec fn asks_engine(event: EventView) -> bool {
    cgroup_field(event.event) is Some && event.digests.len() > 0
}

/// The entry becomes a record of IMA that has something for the digest
/// engine to do.
pub open spec fn entry_asks_engine(entry: EntryView) -> bool {
    converted(entry) matches Ok(event) && event.event_type == IMA_MEASUREMENT_EVENT
        && asks_engine(event)
}

/// No entry of `entries` has anything for the digest engine to do.
pub open spec fn engine_free(entries: Seq<EntryView>) -> bool {
    forall|i: int| 0 <= i < entries.len() ==> !entry_asks_engine(#[trigger] entries[i])
}

/// The run of `entries` stopped at an entry that failed with `e`: `end` is
/// the agent after the entries before it. A fault of the digest engine can
/// stop the run only at an entry that has something for the engine to do.
pub open spec fn stopped_at(
    start: AgentView,
    entries: Seq<EntryView>,
    end: AgentView,
    e: Error,
) -> bool {
    exists|at: int|
        0 <= at < entries.len() && #[trigger] ingested_all(start, entries.take(at)) == Ok::<
            AgentView,
            Error,
        >(end) && (ingested(end, entries[at]) == Err::<AgentView, Error>(e) || (e
            == Error::HashError && ingested(end, entries[at]) is Ok && entry_asks_engine(
            entries[at],
        )))
}

/// What is taken in is logged as it came: behind the log of before stand
/// the records of the entries, one for each, in the order of the entries.
pub proof fn lemma_ingested_log_content(state: AgentView, entries: Seq<EntryView>)
    requires
        ingested_all(state, entries) is Ok,
    ensures
        ingested_all(state, entries)->Ok_0.log.len() == state.log.len() + entries.len(),
        forall|i: int|
            0 <= i < state.log.len() ==> ingested_all(state, entries)->Ok_0.log[i] == state.log[i],
        forall|i: int|
            0 <= i < entries.len() ==> converted(#[trigger] entries[i]) == Ok::<EventView, Error>(
                ingested_all(state, entries)->Ok_0.log[state.log.len() + i],
            ),
    decreases entries.len(),
{
    if entries.len() > 0 {
        lemma_ingested_log_content(state, entries.drop_last());
        let middle = ingested_all(state, entries.drop_last())->Ok_0;
        let end = ingested_all(state, entries)->Ok_0;
        let event = converted(entries.last())->Ok_0;
        if event.event_type == IMA_MEASUREMENT_EVENT {
            lemma_routed_one_container(middle, event);
        }
        assert(end.log == middle.log.push(event));
        assert forall|i: int| 0 <= i < entries.len() implies converted(#[trigger] entries[i])
            == Ok::<EventView, Error>(end.log[state.log.len() + i]) by {
            if i < entries.len() - 1 {
                assert(entries.drop_last()[i] == entries[i]);
            }
        }
    }
}

/// Entries that convert and are no measurements of IMA are taken in,
/// whatever they hold, and leave the baseline and the containers alone.
/// None of them has anything for the digest engine to do.
pub proof fn lemma_plain_entries_taken_in(state: AgentView, entries: Seq<EntryView>)
    requires
        forall|i: int|
            0 <= i < entries.len() ==> (converted(#[trigger] entries[i]) matches Ok(event)
                && event.event_type != IMA_MEASUREMENT_EVENT),
    ensures
        ingested_all(state, entries) is Ok,
        engine_free(entries),
        ingested_all(state, entries)->Ok_0.baseline == state.baseline,
        ingested_all(state, entries)->Ok_0.containers == state.containers,
    decreases entries.len(),
{
    if entries.len() > 0 {
        assert forall|i: int| 0 <= i < entries.drop_last().len() implies (converted(
            #[trigger] entries.drop_last()[i],
        ) matches Ok(event) && event.event_type != IMA_MEASUREMENT_EVENT) by {
            assert(entries.drop_last()[i] == entries[i]);
        }
        lemma_plain_entries_taken_in(state, entries.drop_last());
        assert(entries.last() == entries[entries.len() - 1]);
    }
}

/// A failure lasts: once a run of entries has failed, more entries behind
/// it change nothing of the outcome.
pub proof fn lemma_failure_lasts(
    start: AgentView,
    entries: Seq<EntryView>,
    shorter: int,
    longer: int,
)
    requires
        0 <= shorter <= longer <= entries.len(),
        ingested_all(start, entries.take(shorter)) is Err,
    ensures
        ingested_all(start, entries.take(longer)) == ingested_all(start, entries.take(shorter)),
    decreases longer - shorter,
{
    if shorter < longer {
        lemma_failure_lasts(start, entries, shorter, longer - 1);
        assert(entries.take(longer).drop_last() =~= entries.take(longer - 1));
    }
}

/// A run of entries that would all be taken in, and of which none has
/// anything for the digest engine to do, does not stop.
pub proof fn lemma_engine_free_run(
    start: AgentView,
    entries: Seq<EntryView>,
    end: AgentView,
    e: Error,
)
    requires
        ingested_all(start, entries) is Ok,
        engine_free(entries),
    ensures
        !stopped_at(start, entries, end, e),
{
    if stopped_at(start, entries, end, e) {
        let at = choose|at: int|
            0 <= at < entries.len() && #[trigger] ingested_all(start, entries.take(at)) == Ok::<
                AgentView,
                Error,
            >(end) && (ingested(end, entries[at]) == Err::<AgentView, Error>(e) || (e
                == Error::HashError && ingested(end, entries[at]) is Ok && entry_asks_engine(
                entries[at],
            )));
        assert(!entry_asks_engine(entries[at]));
        assert(entries.take(at + 1).drop_last() =~= entries.take(at));
        assert(entries.take(at + 1).last() == entries[at]);
        assert(ingested_all(start, entries.take(at + 1)) is Err);
        lemma_failure_lasts(start, entries, at + 1, entries.len() as int);
        assert(entries.take(entries.len() as int) =~= entries);
    }
}

/// The entries were taken in as far as they went: `end` is the agent after
/// all of them, or after those before the one at which the run stopped.
pub open spec fn taken_in(start: AgentView, entries: Seq<EntryView>, end: AgentView) -> bool {
    ingested_all(start, entries) == Ok::<AgentView, Error>(end) || exists|e: Error|
        stopped_at(start, entries, end, e)
}

/// Fetching when the evidence source has nothing new changes nothing: the
/// log keeps its length, and no register is extended twice.
pub proof fn lemma_nothing_fetched(state: AgentView, end: AgentView)
    ensures
        ingested_all(state, Seq::<EntryView>::empty()) == Ok::<AgentView, Error>(state),
        taken_in(state, Seq::<EntryView>::empty(), end) ==> end == state,
{
}

/// The agent that has seen nothing and has no baseline.
pub open spec fn empty_agent() -> AgentView {
    AgentView {
        baseline: None,
        isolated: false,
        containers: Map::empty(),
        log: Seq::empty(),
    }
}

/// The baseline of `policy` before anything is measured.
pub open spec fn fresh_baseline(policy: PolicyConfig) -> RegisterView {
    let algo_id = algorithm_by_name(policy.algorithm_name())->0.id_spec();
    RegisterView {
        imr: DigestView { algo_id: algo_id, hash: zero_register(algo_id) },
        log: Seq::empty(),
    }
}

/// The agent `state` set up with `policy` and the baseline `baseline`.
pub open spec fn initialized(
    state: AgentView,
    policy: PolicyConfig,
    baseline: RegisterView,
) -> AgentView {
    AgentView {
        baseline: Some(baseline),
        isolated: policy.isolated_spec() == Some(true),
        containers: state.containers,
        log: state.log,
    }
}

/// An entry of the firmware's or the kernel's register.
pub open spec fn is_platform_entry(event: EventView) -> bool {
    event.imr_index == IMR::FIRMWARE.index_spec() || event.imr_index == IMR::KERNEL.index_spec()
}

/// The test `is_platform_entry` as a function value.
pub open spec fn platform_entries() -> spec_fn(EventView) -> bool {
    |event: EventView| is_platform_entry(event)
}

/// The log that the container `id` may see. With isolation this is what
/// the firmware and the kernel logged, followed by the container's own
/// log, and an unknown container is `NotFound`. Without isolation it is
/// the whole log.
pub open spec fn visible_log(state: AgentView, id: Seq<char>) -> Result<Seq<EventView>, Error> {
    if state.baseline is None {
        Err(Error::NotInitialized)
    } else if !state.isolated {
        Ok(state.log)
    } else if state.containers.dom().contains(id) {
        Ok(state.log.filter(platform_entries()) + state.containers[id].log)
    } else {
        Err(Error::NotFound)
    }
}

/// The part of `visible` that a request for `count` entries from `start`
/// gets. A start beyond the end is an `InvalidRange`; a start at the end
/// gets nothing; a count of zero is an `InvalidRange`; a window that
/// reaches over the end stops at the end.
pub open spec fn window(visible: Seq<EventView>, start: Option<u32>, count: Option<u32>) -> Result<
    Seq<EventView>,
    Error,
> {
    let begin: int = match start {
        Some(s) => s as int,
        None => 0,
    };
    if begin > visible.len() {
        Err(Error::InvalidRange)
    } else if start is Some && begin == visible.len() {
        Ok(Seq::empty())
    } else if count == Some(0u32) {
        Err(Error::InvalidRange)
    } else {
        let end: int = match count {
            Some(c) => if begin + c > visible.len() {
                visible.len() as int
            } else {
                begin + c
            },
            None => visible.len() as int,
        };
        Ok(visible.subrange(begin, end))
    }
}

/// The edges of a window: one that starts at the end of the log is empty,
/// whatever it asks for; one that starts behind the end is an
/// `InvalidRange`; so is one that asks for no entries and starts before the
/// end; one that reaches over the end stops at the end; one that lies
/// within the log is given whole.
pub proof fn lemma_window_edges(visible: Seq<EventView>, start: u32, count: Option<u32>)
    ensures
        start == visible.len() ==> window(visible, Some(start), count) == Ok::<
            Seq<EventView>,
            Error,
        >(Seq::empty()),
        start > visible.len() ==> window(visible, Some(start), count) == Err::<
            Seq<EventView>,
            Error,
        >(Error::InvalidRange),
        start < visible.len() ==> window(visible, Some(start), Some(0u32)) == Err::<
            Seq<EventView>,
            Error,
        >(Error::InvalidRange),
        visible.len() > 0 ==> window(visible, None, Some(0u32)) == Err::<Seq<EventView>, Error>(
            Error::InvalidRange,
        ),
        start < visible.len() && (count matches Some(c) && c > 0 && start + c > visible.len())
            ==> window(visible, Some(start), count) == Ok::<Seq<EventView>, Error>(
            visible.subrange(start as int, visible.len() as int),
        ),
        start < visible.len() && count is None ==> window(visible, Some(start), count) == Ok::<
            Seq<EventView>,
            Error,
        >(visible.subrange(start as int, visible.len() as int)),
        start < visible.len() && (count matches Some(c) && c > 0 && start + c <= visible.len())
            ==> window(visible, Some(start), count) == Ok::<Seq<EventView>, Error>(
            visible.subrange(start as int, start + count->0),
        ),
{
}

/// A window never holds more entries than were asked for, and what it
/// holds stands in the log at the positions asked for.
pub proof fn lemma_window_within(visible: Seq<EventView>, start: Option<u32>, count: Option<u32>)
    requires
        window(visible, start, count) is Ok,
    ensures
        ({
            let answer = window(visible, start, count)->Ok_0;
            let begin: int = if start is Some {
                start->0 as int
            } else {
                0
            };
            &&& begin + answer.len() <= visible.len()
            &&& count matches Some(c) ==> answer.len() <= c
            &&& forall|i: int| 0 <= i < answer.len() ==> answer[i] == visible[begin + i]
        }),
{
}

/// The nonce that goes to the evidence source for a report. With
/// isolation it binds the register of the container `id` to the caller's
/// nonce, and an unknown container is `NotFound`; without isolation it is
/// the caller's nonce.
pub open spec fn report_nonce(state: AgentView, id: Seq<char>, nonce: Option<Seq<char>>) -> Result<
    Option<Seq<char>>,
    Error,
> {
    if state.baseline is None {
        Err(Error::NotInitialized)
    } else if !state.isolated {
        Ok(nonce)
    } else if !state.containers.dom().contains(id) {
        Err(Error::NotFound)
    } else {
        match nonce {
            None => Ok(None),
            Some(text) => match bound_nonce(state.containers[id].imr.hash, text) {
                Ok(bound) => Ok(Some(bound)),
                Err(e) => Err(e),
            },
        }
    }
}

/// The binding of a report: with isolation the nonce that goes to the
/// evidence source for the container `id` is the base64 text of the
/// container's register followed by the bytes that the caller's nonce
/// stands for; without isolation the caller's nonce goes on unchanged.
pub proof fn lemma_report_binding(state: AgentView, id: Seq<char>, nonce: Seq<char>)
    requires
        state.valid(),
    ensures
        state.isolated && state.containers.dom().contains(id) ==> (match base64_bytes(nonce) {
            Some(raw) => encodable((state.containers[id].imr.hash + raw).len()) ==> report_nonce(
                state,
                id,
                Some(nonce),
            ) == Ok::<Option<Seq<char>>, Error>(
                Some(base64_text(state.containers[id].imr.hash + raw)),
            ),
            None => report_nonce(state, id, Some(nonce)) == Err::<Option<Seq<char>>, Error>(
                Error::InvalidEncoding,
            ),
        }),
        state.isolated && !state.containers.dom().contains(id) ==> report_nonce(
            state,
            id,
            Some(nonce),
        ) == Err::<Option<Seq<char>>, Error>(Error::NotFound),
        !state.isolated && state.baseline is Some ==> report_nonce(state, id, Some(nonce)) == Ok::<
            Option<Seq<char>>,
            Error,
        >(Some(nonce)) && report_nonce(state, id, None) == Ok::<Option<Seq<char>>, Error>(None),
{
}

/// What to ask the evidence source for a report.
#[derive(Clone, Debug, PartialEq, Eq)]
pub struct ReportRequest {
    pub nonce: Option<String>,
    pub user_data: Option<String>,
}

/// The text of an optional string.
pub open spec fn text_view(text: Option<String>) -> Option<Seq<char>> {
    match text {
        Some(t) => Some(t@),
        None => None,
    }
}

/// Where the value of a register comes from.
#[derive(Clone, Debug, PartialEq, Eq)]
pub enum MeasurementAnswer {
    /// The register of the container, held by the agent.
    Register(TcgDigest),
    /// The evidence source is to be asked for the register `index` in the
    /// algorithm `algo_id`.
    Upstream { index: u32, algo_id: u32 },
}

/// An answer as a mathematical value.
pub enum AnswerView {
    Register(DigestView),
    Upstream { index: u32, algo_id: u32 },
}

impl View for MeasurementAnswer {
    type V = AnswerView;

    open spec fn view(&self) -> AnswerView {
        match self {
            MeasurementAnswer::Register(digest) => AnswerView::Register(digest@),
            MeasurementAnswer::Upstream { index, algo_id } => AnswerView::Upstream {
                index: *index,
                algo_id: *algo_id,
            },
        }
    }
}

/// The answer to a request for the register `index`. With isolation the
/// system's register is out of reach, `AccessDenied`, and the container's
/// register is the one the agent holds for `id`, `NotFound` if it holds
/// none. Everything else is the evidence source's to answer.
pub open spec fn measurement_answer(
    state: AgentView,
    id: Seq<char>,
    index: u32,
    algo_id: u32,
) -> Result<AnswerView, Error> {
    if state.baseline is None {
        Err(Error::NotInitialized)
    } else if state.isolated && index == IMR::SYSTEM.index_spec() {
        Err(Error::AccessDenied)
    } else if state.isolated && index == IMR::CONTAINER.index_spec() {
        if state.containers.dom().contains(id) {
            Ok(AnswerView::Register(state.containers[id].imr))
        } else {
            Err(Error::NotFound)
        }
    } else {
        Ok(AnswerView::Upstream { index: index, algo_id: algo_id })
    }
}

/// Under isolation nobody reads the system's register, whoever asks and in
/// whatever algorithm; and a container's own register is answered from
/// what the agent holds, never by the evidence source.
pub proof fn lemma_isolated_measurement(state: AgentView, id: Seq<char>, algo_id: u32)
    requires
        state.valid(),
        state.isolated,
    ensures
        measurement_answer(state, id, IMR::SYSTEM.index_spec(), algo_id) == Err::<
            AnswerView,
            Error,
        >(Error::AccessDenied),
        state.containers.dom().contains(id) ==> measurement_answer(
            state,
            id,
            IMR::CONTAINER.index_spec(),
            algo_id,
        ) == Ok::<AnswerView, Error>(AnswerView::Register(state.containers[id].imr)),
        !state.containers.dom().contains(id) ==> measurement_answer(
            state,
            id,
            IMR::CONTAINER.index_spec(),
            algo_id,
        ) == Err::<AnswerView, Error>(Error::NotFound),
{
}

/// Under isolation a container sees of the agent's log only what the
/// firmware and the kernel logged, and after that its own log: no record
/// of the system's register and none of another container's events.
pub proof fn lemma_isolated_view(state: AgentView, id: Seq<char>)
    requires
        state.valid(),
        state.isolated,
        state.containers.dom().contains(id),
    ensures
        visible_log(state, id) is Ok,
        ({
            let visible = visible_log(state, id)->Ok_0;
            let own = state.containers[id].log;
            &&& visible.len() >= own.len()
            &&& visible.subrange(visible.len() - own.len(), visible.len() as int) == own
            &&& forall|i: int|
                0 <= i < visible.len() - own.len() ==> is_platform_entry(#[trigger] visible[i])
                    && state.log.contains(visible[i])
        }),
{
    let platform = state.log.filter(platform_entries());
    let own = state.containers[id].log;
    let visible = platform + own;
    assert(visible.subrange(visible.len() - own.len(), visible.len() as int) =~= own);
    assert forall|i: int| 0 <= i < visible.len() - own.len() implies is_platform_entry(
        #[trigger] visible[i],
    ) && state.log.contains(visible[i]) by {
        assert(visible[i] == platform[i]);
        state.log.lemma_filter_pred(platform_entries(), i);
        state.log.lemma_filter_contains_rev(platform_entries(), platform[i]);
        assert(platform.contains(platform[i]));
    }
}

/// The measurement agent: the baseline, the containers, and the log of all
/// entries in the order in which they came.
pub struct Agent {
    measurement: Option<Measurement>,
    containers: Registry,
    event_logs: Vec<TcgEventlog>,
}

impl View for Agent {
    type V = AgentView;

    closed spec fn view(&self) -> AgentView {
        AgentView {
            baseline: match self.measurement {
                Some(m) => Some(m@),
                None => None,
            },
            isolated: match self.measurement {
                Some(m) => m.policy_spec().isolated_spec() == Some(true),
                None => false,
            },
            containers: self.containers@,
            log: log_view(self.event_logs@),
        }
    }
}

impl Agent {
    /// The baseline and the registry are well formed, and so is every
    /// register.
    pub closed spec fn well_formed(&self) -> bool {
        &&& self.containers.well_formed()
        &&& match self.measurement {
            Some(m) => m.well_formed(),
            None => true,
        }
        &&& forall|id: Seq<char>| #[trigger]
            self.containers@.dom().contains(id) ==> self.containers@[id].imr.well_formed()
                && self.containers@[id].replayable()
    }

    /// After every operation each register of the agent, the baseline's
    /// and each container's, has the canonical length of its algorithm and
    /// is what replaying the digests of its log from the all-zero register
    /// gives.
    pub proof fn lemma_valid(&self)
        requires
            self.well_formed(),
        ensures
            self@.valid(),
    {
        match self.measurement {
            Some(m) => {
                m.lemma_well_formed();
            },
            None => {},
        }
    }

    /// An agent that has seen nothing and has no baseline yet.
    pub fn new() -> (agent: Agent)
        ensures
            agent.well_formed(),
            agent@ == empty_agent(),
    {
        let agent = Agent {
            measurement: None,
            containers: Registry::new(),
            event_logs: Vec::new(),
        };
        assert(agent@.log =~= Seq::<EventView>::empty());
        agent
    }

    /// The baseline, once the agent is initialized.
    pub fn measurement(&self) -> (baseline: Option<&Measurement>)
        requires
            self.well_formed(),
        ensures
            baseline is Some <==> self@.baseline is Some,
            baseline matches Some(m) ==> m.well_formed() && Some(m@) == self@.baseline
                && self@.isolated == (m.policy_spec().isolated_spec() == Some(true)),
    {
        self.measurement.as_ref()
    }

    /// The container with the identity `container_id`, if it was seen.
    pub fn container(&self, container_id: &str) -> (container: Option<&Container>)
        requires
            self.well_formed(),
        ensures
            container is Some <==> self@.containers.dom().contains(container_id@),
            container matches Some(c) ==> c@ == self@.containers[container_id@],
    {
        self.containers.get(container_id)
    }

    /// Number of containers seen so far.
    pub fn container_count(&self) -> (count: usize)
        requires
            self.well_formed(),
        ensures
            self@.containers.dom().finite(),
            count == self@.containers.dom().len(),
    {
        self.containers.len()
    }

    /// Every entry taken in so far, oldest first.
    pub fn event_logs(&self) -> (log: &Vec<TcgEventlog>)
        ensures
            log_view(log@) == self@.log,
    {
        &self.event_logs
    }

    /// Offers `event` to the containers: where its data is a
    /// container-attribution record, the container that the record names is
    /// extended by the event, and created from the baseline before if this
    /// is its first event. Other events change nothing and are passed over
    /// with success. Nothing changes on failure either. The digest engine
    /// can fail only an event that has a digest for a container.
    pub fn filter_container(&mut self, event: &TcgEventlog) -> (done: Result<(), Error>)
        requires
            old(self).well_formed(),
        ensures
            final(self).well_formed(),
            done is Ok ==> routed(old(self)@, event@) == Ok::<AgentView, Error>(final(self)@),
            done matches Err(e) ==> final(self)@ == old(self)@ && (routed(old(self)@, event@)
                == Err::<AgentView, Error>(e) || (e == Error::HashError && routed(
                old(self)@,
                event@,
            ) is Ok && asks_engine(event@))),
            valid_utf8(event@.event) && cgroup_field(event@.event) is None ==> done is Ok
                && final(self)@ == old(self)@,
            routed(old(self)@, event@) is Ok && !asks_engine(event@) ==> done is Ok,
    {
        if decode_text(slice_to_vec(event.event.as_slice())).is_none() {
            return Err(Error::InvalidEncoding);
        }
        let fields = split_bytes(event.event.as_slice(), FIELD_SEPARATOR);
        if fields.len() != RECORD_FIELDS {
            return Ok(());
        }
        let path = fields[CGROUP_FIELD].as_slice();
        assert(path@ == split_spec(event@.event, FIELD_SEPARATOR)[CGROUP_FIELD as int]) by {
            assert(field_views(fields@)[CGROUP_FIELD as int] == fields@[CGROUP_FIELD as int]@);
        }
        if !path_names_container(path) {
            return Ok(());
        }
        let id_bytes = match parse_id_bytes(path) {
            Ok(bytes) => bytes,
            Err(e) => { return Err(e); },
        };
        proof {
            lemma_container_id_is_utf8(path@);
        }
        let container_id = match decode_text(id_bytes) {
            Some(text) => text,
            None => { return Err(Error::ParseError); },
        };
        proof {
            encode_utf8_decode_utf8(container_id@);
        }
        if self.containers.contains_key(container_id.as_str()) {
            proof {
                lemma_extended_replayable(
                    self.containers@[container_id@],
                    IMR::CONTAINER.index_spec(),
                    event@,
                );
            }
            self.containers.extend(container_id.as_str(), IMR::CONTAINER.index(), event.duplicate())
        } else {
            let measurement = match &self.measurement {
                Some(m) => m,
                None => { return Err(Error::NotInitialized); },
            };
            let mut container = Container::new(
                measurement.imr().duplicate(),
                duplicate_log(measurement.event_logs()),
            );
            assert(container@ == measurement@);
            proof {
                measurement.lemma_well_formed();
                lemma_extended_replayable(measurement@, IMR::CONTAINER.index_spec(), event@);
            }
            match container.extend_imr(IMR::CONTAINER.index(), event.duplicate()) {
                Ok(()) => {
                    self.containers.insert(container_id, container);
                    Ok(())
                },
                Err(e) => Err(e),
            }
        }
    }

    /// Takes in the entries that the evidence source gave for the log from
    /// `next_start` on. Each entry is converted to a record; a record of
    /// IMA is offered to the containers; the record is appended to the log.
    /// The first entry that fails ends the run, and the entries before it
    /// stay taken in. Without entries nothing changes.
    pub fn fetch_all_event_logs(&mut self, entries: &Vec<EventLogEntry>) -> (done: Result<
        (),
        Error,
    >)
        requires
            old(self).well_formed(),
        ensures
            final(self).well_formed(),
            final(self)@.baseline == old(self)@.baseline,
            final(self)@.isolated == old(self)@.isolated,
            done is Ok ==> ingested_all(old(self)@, entry_views(entries@)) == Ok::<
                AgentView,
                Error,
            >(final(self)@) && final(self)@.log.len() == old(self)@.log.len() + entries@.len(),
            done matches Err(e) ==> stopped_at(old(self)@, entry_views(entries@), final(self)@, e),
            ingested_all(old(self)@, entry_views(entries@)) is Ok && engine_free(
                entry_views(entries@),
            ) ==> done is Ok,
            entries@.len() == 0 ==> done is Ok && final(self)@ == old(self)@,
    {
        let ghost views = entry_views(entries@);
        let mut i: usize = 0;
        assert(views.take(0) =~= Seq::<EntryView>::empty());
        while i < entries.len()
            invariant
                i <= entries@.len(),
                views == entry_views(entries@),
                self.well_formed(),
                self@.baseline == old(self)@.baseline,
                self@.isolated == old(self)@.isolated,
                self@.log.len() == old(self)@.log.len() + i,
                ingested_all(old(self)@, views.take(i as int)) == Ok::<AgentView, Error>(self@),
            decreases entries@.len() - i,
        {
            let ghost before = self@;
            proof {
                assert(views.take(i + 1).drop_last() =~= views.take(i as int));
                assert(views.take(i + 1).last() == views[i as int]);
            }
            let record = match convert_entry(&entries[i]) {
                Ok(record) => record,
                Err(e) => {
                    assert(ingested(before, views[i as int]) == Err::<AgentView, Error>(e));
                    proof {
                        if ingested_all(old(self)@, views) is Ok && engine_free(views) {
                            lemma_engine_free_run(old(self)@, views, before, e);
                        }
                    }
                    return Err(e);
                },
            };
            if record.event_type == IMA_MEASUREMENT_EVENT {
                match self.filter_container(&record) {
                    Ok(()) => {},
                    Err(e) => {
                        assert(ingested(before, views[i as int]) == Err::<AgentView, Error>(e) || (e
                            == Error::HashError && ingested(before, views[i as int]) is Ok
                            && entry_asks_engine(views[i as int])));
                        proof {
                            if ingested_all(old(self)@, views) is Ok && engine_free(views) {
                                lemma_engine_free_run(old(self)@, views, before, e);
                            }
                        }
                        return Err(e);
                    },
                }
            }
            proof {
                lemma_log_view_push(self.event_logs@, record);
            }
            self.event_logs.push(record);
            assert(ingested(before, views[i as int]) == Ok::<AgentView, Error>(self@));
            i = i + 1;
        }
        assert(views.take(i as int) =~= views);
        Ok(())
    }

    /// The position from which the evidence source is asked for more: the
    /// number of entries taken in so far, and the largest position there is
    /// where the log has grown beyond it, so that the position never moves
    /// back.
    pub fn next_start(&self) -> (start: u32)
        ensures
            self@.log.len() <= u32::MAX ==> start == self@.log.len(),
            self@.log.len() > u32::MAX ==> start == u32::MAX,
    {
        let len = self.event_logs.len();
        if len > u32::MAX as usize {
            u32::MAX
        } else {
            len as u32
        }
    }

    /// Sets the agent up: the baseline is made for `policy` and built from
    /// the running processes `processes`, then `entries`, the log of the
    /// evidence source so far, is taken in.
    ///
    /// A policy that names an unknown hash algorithm is a `ConfigError` and
    /// changes nothing. Where nothing is there to measure and no entry has
    /// a digest for a container, the digest engine is not asked, and the
    /// agent is set up whenever the entries can be taken in.
    pub fn init(
        &mut self,
        policy: PolicyConfig,
        processes: &Vec<(Vec<u8>, Vec<u8>)>,
        entries: &Vec<EventLogEntry>,
    ) -> (done: Result<(), Error>)
        requires
            old(self).well_formed(),
            forall|i: int|
                0 <= i < processes@.len() ==> (#[trigger] processes@[i]).0@.len()
                    + processes@[i].1@.len() < u32::MAX,
        ensures
            final(self).well_formed(),
            algorithm_by_name(policy.algorithm_name()) is None ==> done == Err::<(), Error>(
                Error::ConfigError,
            ) && final(self)@ == old(self)@,
            algorithm_by_name(policy.algorithm_name()) is Some ==> ({
                let values = policy_values(policy, table_view(processes@));
                let ready = initialized(
                    old(self)@,
                    policy,
                    measure_all(fresh_baseline(policy), values),
                );
                &&& done is Ok ==> ingested_all(ready, entry_views(entries@)) == Ok::<
                    AgentView,
                    Error,
                >(final(self)@)
                &&& done matches Err(e) ==> (e == Error::HashError && exists|k: int|
                    0 <= k < values.len() && final(self)@ == initialized(
                        old(self)@,
                        policy,
                        #[trigger] measure_all(fresh_baseline(policy), values.take(k)),
                    )) || stopped_at(ready, entry_views(entries@), final(self)@, e)
                &&& values.len() == 0 && ingested_all(ready, entry_views(entries@)) is Ok
                    && engine_free(entry_views(entries@)) ==> done is Ok
            }),
    {
        if policy.algorithm().is_err() {
            return Err(Error::ConfigError);
        }
        let ghost values = policy_values(policy, table_view(processes@));
        let mut measurement = Measurement::new(policy);
        assert(measurement@ == fresh_baseline(policy));
        let measured = measurement.measure(processes);
        self.measurement = Some(measurement);
        match measured {
            Ok(()) => self.fetch_all_event_logs(entries),
            Err(e) => {
                let ghost k = choose|k: int|
                    0 <= k < values.len() && measurement@ == measure_all(
                        fresh_baseline(policy),
                        values.take(k),
                    );
                assert(self@ == initialized(
                    old(self)@,
                    policy,
                    measure_all(fresh_baseline(policy), values.take(k)),
                ));
                Err(e)
            },
        }
    }

    /// The log that the container `container_id` may see.
    pub fn visible_event_logs(&self, container_id: &str) -> (visible: Result<
        Vec<TcgEventlog>,
        Error,
    >)
        requires
            self.well_formed(),
        ensures
            visible matches Ok(log) ==> visible_log(self@, container_id@) == Ok::<
                Seq<EventView>,
                Error,
            >(log_view(log@)),
            visible matches Err(e) ==> visible_log(self@, container_id@) == Err::<
                Seq<EventView>,
                Error,
            >(e),
    {
        let measurement = match &self.measurement {
            Some(m) => m,
            None => { return Err(Error::NotInitialized); },
        };
        if !measurement.container_isolated() {
            return Ok(duplicate_log(&self.event_logs));
        }
        let container = match self.containers.get(container_id) {
            Some(container) => container,
            None => { return Err(Error::NotFound); },
        };
        let ghost whole = log_view(self.event_logs@);
        let mut visible: Vec<TcgEventlog> = Vec::new();
        let mut i: usize = 0;
        proof {
            reveal(Seq::filter);
            assert(whole.take(0) =~= Seq::<EventView>::empty());
            assert(log_view(visible@) =~= whole.take(0).filter(platform_entries()));
        }
        while i < self.event_logs.len()
            invariant
                i <= self.event_logs@.len(),
                whole == log_view(self.event_logs@),
                log_view(visible@) == whole.take(i as int).filter(platform_entries()),
            decreases self.event_logs@.len() - i,
        {
            let entry = &self.event_logs[i];
            proof {
                assert(whole.take(i + 1) =~= whole.take(i as int).push(entry@));
                whole.take(i as int).lemma_filter_push(entry@, platform_entries());
            }
            if entry.imr_index == IMR::FIRMWARE.index() || entry.imr_index == IMR::KERNEL.index() {
                let copy = entry.duplicate();
                proof {
                    lemma_log_view_push(visible@, copy);
                }
                visible.push(copy);
            }
            i = i + 1;
        }
        assert(whole.take(i as int) =~= whole);
        let own = container.event_logs();
        let ghost platform = log_view(visible@);
        let mut j: usize = 0;
        assert(log_view(own@).take(0) =~= Seq::<EventView>::empty());
        assert(platform + Seq::<EventView>::empty() =~= platform);
        while j < own.len()
            invariant
                j <= own@.len(),
                log_view(visible@) == platform + log_view(own@).take(j as int),
            decreases own@.len() - j,
        {
            let copy = own[j].duplicate();
            proof {
                lemma_log_view_push(visible@, copy);
                assert(log_view(own@).take(j + 1) =~= log_view(own@).take(j as int).push(copy@));
                assert(log_view(visible@).push(copy@) =~= platform + log_view(own@).take(j + 1));
            }
            visible.push(copy);
            j = j + 1;
        }
        assert(log_view(own@).take(j as int) =~= log_view(own@));
        Ok(visible)
    }

    /// Takes in `fetched`, the entries that the evidence source gave from
    /// `next_start` on, then answers with the window of `count` entries
    /// from `start` over the log that the container `container_id` may
    /// see. Where taking in fails, the answer is drawn from what was taken
    /// in until then.
    pub fn get_cc_eventlog(
        &mut self,
        fetched: &Vec<EventLogEntry>,
        container_id: String,
        start: Option<u32>,
        count: Option<u32>,
    ) -> (answer: Result<Vec<TcgEventlog>, Error>)
        requires
            old(self).well_formed(),
        ensures
            final(self).well_formed(),
            taken_in(old(self)@, entry_views(fetched@), final(self)@),
            ingested_all(old(self)@, entry_views(fetched@)) is Ok && engine_free(
                entry_views(fetched@),
            ) ==> ingested_all(old(self)@, entry_views(fetched@)) == Ok::<AgentView, Error>(
                final(self)@,
            ),
            fetched@.len() == 0 ==> final(self)@ == old(self)@,
            answer matches Ok(log) ==> visible_log(final(self)@, container_id@) is Ok && window(
                visible_log(final(self)@, container_id@)->Ok_0,
                start,
                count,
            ) == Ok::<Seq<EventView>, Error>(log_view(log@)),
            answer matches Err(e) ==> visible_log(final(self)@, container_id@) == Err::<
                Seq<EventView>,
                Error,
            >(e) || (visible_log(final(self)@, container_id@) is Ok && window(
                visible_log(final(self)@, container_id@)->Ok_0,
                start,
                count,
            ) == Err::<Seq<EventView>, Error>(e)),
    {
        let _ = self.fetch_all_event_logs(fetched);
        let visible = match self.visible_event_logs(container_id.as_str()) {
            Ok(visible) => visible,
            Err(e) => { return Err(e); },
        };
        take_window(&visible, start, count)
    }

    /// What to ask the evidence source for a report on behalf of the
    /// container `container_id`.
    pub fn report_request(
        &self,
        container_id: &str,
        nonce: Option<String>,
        user_data: Option<String>,
    ) -> (request: Result<ReportRequest, Error>)
        requires
            self.well_formed(),
        ensures
            request matches Ok(r) ==> report_nonce(self@, container_id@, text_view(nonce)) == Ok::<
                Option<Seq<char>>,
                Error,
            >(text_view(r.nonce)) && r.user_data == user_data,
            request matches Err(e) ==> report_nonce(self@, container_id@, text_view(nonce))
                == Err::<Option<Seq<char>>, Error>(e),
    {
        let measurement = match &self.measurement {
            Some(m) => m,
            None => { return Err(Error::NotInitialized); },
        };
        if !measurement.container_isolated() {
            return Ok(ReportRequest { nonce, user_data });
        }
        let container = match self.containers.get(container_id) {
            Some(container) => container,
            None => { return Err(Error::NotFound); },
        };
        match nonce {
            None => Ok(ReportRequest { nonce: None, user_data }),
            Some(text) => match bind_nonce(container.imr().hash.as_slice(), text.as_str()) {
                Ok(bound) => Ok(ReportRequest { nonce: Some(bound), user_data }),
                Err(e) => Err(e),
            },
        }
    }

    /// Takes in `fetched`, the entries that the evidence source gave from
    /// `next_start` on, then says what to ask the evidence source for a
    /// report: with isolation the nonce is bound to the register of the
    /// container `container_id`, without it the nonce goes on as it came.
    pub fn get_cc_report(
        &mut self,
        fetched: &Vec<EventLogEntry>,
        container_id: String,
        nonce: Option<String>,
        user_data: Option<String>,
    ) -> (request: Result<ReportRequest, Error>)
        requires
            old(self).well_formed(),
        ensures
            final(self).well_formed(),
            taken_in(old(self)@, entry_views(fetched@), final(self)@),
            ingested_all(old(self)@, entry_views(fetched@)) is Ok && engine_free(
                entry_views(fetched@),
            ) ==> ingested_all(old(self)@, entry_views(fetched@)) == Ok::<AgentView, Error>(
                final(self)@,
            ),
            fetched@.len() == 0 ==> final(self)@ == old(self)@,
            request matches Ok(r) ==> report_nonce(
                final(self)@,
                container_id@,
                text_view(nonce),
            ) == Ok::<Option<Seq<char>>, Error>(text_view(r.nonce)) && r.user_data == user_data,
            request matches Err(e) ==> report_nonce(
                final(self)@,
                container_id@,
                text_view(nonce),
            ) == Err::<Option<Seq<char>>, Error>(e),
    {
        let _ = self.fetch_all_event_logs(fetched);
        self.report_request(container_id.as_str(), nonce, user_data)
    }

    /// The register `index` for the container `container_id`, or the
    /// request to put to the evidence source for it.
    pub fn get_cc_measurement(&self, container_id: String, index: u32, algo_id: u32) -> (answer:
        Result<MeasurementAnswer, Error>)
        requires
            self.well_formed(),
        ensures
            answer matches Ok(a) ==> measurement_answer(self@, container_id@, index, algo_id)
                == Ok::<AnswerView, Error>(a@),
            answer matches Err(e) ==> measurement_answer(self@, container_id@, index, algo_id)
                == Err::<AnswerView, Error>(e),
    {
        let measurement = match &self.measurement {
            Some(m) => m,
            None => { return Err(Error::NotInitialized); },
        };
        if measurement.container_isolated() {
            if index == IMR::SYSTEM.index() {
                return Err(Error::AccessDenied);
            }
            if index == IMR::CONTAINER.index() {
                return match self.containers.get(container_id.as_str()) {
                    Some(container) => Ok(MeasurementAnswer::Register(container.imr().duplicate())),
                    None => Err(Error::NotFound),
                };
            }
        }
        Ok(MeasurementAnswer::Upstream { index, algo_id })
    }
}

/// The window of `count` entries from `start` over `visible`.
pub fn take_window(visible: &Vec<TcgEventlog>, start: Option<u32>, count: Option<u32>) -> (answer:
    Result<Vec<TcgEventlog>, Error>)
    ensures
        answer matches Ok(log) ==> window(log_view(visible@), start, count) == Ok::<
            Seq<EventView>,
            Error,
        >(log_view(log@)),
        answer matches Err(e) ==> window(log_view(visible@), start, count) == Err::<
            Seq<EventView>,
            Error,
        >(e),
{
    let len = visible.len();
    let begin: usize = match start {
        Some(s) => {
            if s as usize > len {
                return Err(Error::InvalidRange);
            }
            if s as usize == len {
                let nothing: Vec<TcgEventlog> = Vec::new();
                assert(log_view(nothing@) =~= Seq::<EventView>::empty());
                return Ok(nothing);
            }
            s as usize
        },
        None => 0,
    };
    let end: usize = match count {
        Some(c) => {
            if c == 0 {
                return Err(Error::InvalidRange);
            }
            if c as usize > len - begin {
                len
            } else {
                begin + c as usize
            }
        },
        None => len,
    };
    let mut answer: Vec<TcgEventlog> = Vec::new();
    let mut i: usize = begin;
    assert(log_view(answer@) =~= log_view(visible@).subrange(begin as int, begin as int));
    while i < end
        invariant
            begin <= i <= end <= visible@.len(),
            log_view(answer@) == log_view(visible@).subrange(begin as int, i as int),
        decreases end - i,
    {
        let copy = visible[i].duplicate();
        proof {
            lemma_log_view_push(answer@, copy);
            assert(log_view(answer@).push(copy@) =~= log_view(visible@).subrange(
                begin as int,
                i + 1,
            ));
        }
        answer.push(copy);
        i = i + 1;
    }
    Ok(answer)
}

} // verus!
