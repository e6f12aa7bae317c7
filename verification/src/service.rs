//! The request-handling layer. It owns the agent, so that every request
//! reaches the registers through one door and in one order, and it turns
//! each failure into a status with a message for the caller.

use vstd::prelude::*;
use crate::agent::{
    empty_agent, engine_free, fresh_baseline, ingested_all, initialized, measurement_answer,
    report_nonce, stopped_at, taken_in, text_view, visible_log, window, Agent, AgentView,
    AnswerView, MeasurementAnswer, ReportRequest,
};
use crate::error::Error;
use crate::eventlog::{entry_views, EventLogEntry};
use crate::measurement::{measure_all, policy_values, table_view};
use crate::policy::{algorithm_by_name, PolicyConfig};
use crate::tcg::{log_view, EventView, TcgEventlog};

verus! {

/// A failure as the caller of a request sees it.
#[derive(Clone, Debug, PartialEq, Eq)]
pub struct Status {
    /// What went wrong.
    pub error: Error,
    /// The text that goes with it.
    pub message: String,
}

impl Status {
    /// The status that reports `error`.
    pub fn new(error: Error) -> (status: Status)
        ensures
            status.error == error,
            status.message@ == error.message_spec(),
    {
        Status { error, message: error.message() }
    }
}

/// The service: the agent behind the request handlers.
pub struct Service {
    agent: Agent,
}

impl View for Service {
    type V = AgentView;

    closed spec fn view(&self) -> AgentView {
        self.agent@
    }
}

impl Service {
    /// The agent is well formed.
    pub closed spec fn well_formed(&self) -> bool {
        self.agent.well_formed()
    }

    /// What holds of every agent holds of the one behind the service.
    pub proof fn lemma_valid(&self)
        requires
            self.well_formed(),
        ensures
            self@.valid(),
    {
        self.agent.lemma_valid();
    }

    /// Starts the service: a new agent is set up with `policy`, its
    /// baseline is built from the running processes `processes`, and
    /// `entries`, the log of the evidence source so far, is taken in. A
    /// failure of any of this is the service's failure to start. The digest
    /// engine can fail the start only where there is something to measure
    /// or an entry has a digest for a container.
    pub fn new(
        policy: PolicyConfig,
        processes: &Vec<(Vec<u8>, Vec<u8>)>,
        entries: &Vec<EventLogEntry>,
    ) -> (service: Result<Service, Error>)
        requires
            forall|i: int|
                0 <= i < processes@.len() ==> (#[trigger] processes@[i]).0@.len()
                    + processes@[i].1@.len() < u32::MAX,
        ensures
            algorithm_by_name(policy.algorithm_name()) is None ==> (service matches Err(e) && e
                == Error::ConfigError),
            algorithm_by_name(policy.algorithm_name()) is Some ==> ({
                let values = policy_values(policy, table_view(processes@));
                let ready = initialized(
                    empty_agent(),
                    policy,
                    measure_all(fresh_baseline(policy), values),
                );
                &&& service matches Ok(s) ==> s.well_formed() && ingested_all(
                    ready,
                    entry_views(entries@),
                ) == Ok::<AgentView, Error>(s@)
                &&& service matches Err(e) ==> (e == Error::HashError && 0 < values.len())
                    || exists|end: AgentView| stopped_at(ready, entry_views(entries@), end, e)
                &&& values.len() == 0 && ingested_all(ready, entry_views(entries@)) is Ok
                    && engine_free(entry_views(entries@)) ==> service is Ok
            }),
    {
        let mut agent = Agent::new();
        match agent.init(policy, processes, entries) {
            Ok(()) => Ok(Service { agent }),
            Err(e) => Err(e),
        }
    }

    /// The agent behind the service.
    pub fn agent(&self) -> (agent: &Agent)
        ensures
            agent@ == self@,
            agent.well_formed() == self.well_formed(),
    {
        &self.agent
    }

    /// The position from which to ask the evidence source for new entries.
    pub fn next_start(&self) -> (start: u32)
        ensures
            self@.log.len() <= u32::MAX ==> start == self@.log.len(),
            self@.log.len() > u32::MAX ==> start == u32::MAX,
    {
        self.agent.next_start()
    }

    /// Answers a request for the register `index`: with the register that
    /// the agent holds, or with what to ask the evidence source.
    pub fn get_cc_measurement(&self, container_id: String, index: u32, algo_id: u32) -> (answer:
        Result<MeasurementAnswer, Status>)
        requires
            self.well_formed(),
        ensures
            answer matches Ok(a) ==> measurement_answer(self@, container_id@, index, algo_id)
                == Ok::<AnswerView, Error>(a@),
            answer matches Err(status) ==> measurement_answer(self@, container_id@, index, algo_id)
                == Err::<AnswerView, Error>(status.error) && status.message@
                == status.error.message_spec(),
    {
        match self.agent.get_cc_measurement(container_id, index, algo_id) {
            Ok(answer) => Ok(answer),
            Err(e) => Err(Status::new(e)),
        }
    }

    /// Answers a request for the event log after taking in `fetched`, the
    /// entries that the evidence source gave from `next_start` on.
    pub fn get_cc_eventlog(
        &mut self,
        fetched: &Vec<EventLogEntry>,
        container_id: String,
        start: Option<u32>,
        count: Option<u32>,
    ) -> (answer: Result<Vec<TcgEventlog>, Status>)
        requires
            old(self).well_formed(),
        ensures
            final(self).well_formed(),
            taken_in(old(self)@, entry_views(fetched@), final(self)@),
            ingested_all(old(self)@, entry_views(fetched@)) is Ok && engine_free(
                entry_views(fetched@),
            ) ==> ingested_all(old(self)@, entry_views(fetched@)) == Ok::<AgentView, Error>(
                final(self)@,
            ),
            fetched@.len() == 0 ==> final(self)@ == old(self)@,
            answer matches Ok(log) ==> visible_log(final(self)@, container_id@) is Ok && window(
                visible_log(final(self)@, container_id@)->Ok_0,
                start,
                count,
            ) == Ok::<Seq<EventView>, Error>(log_view(log@)),
            answer matches Err(status) ==> status.message@ == status.error.message_spec() && (
            visible_log(final(self)@, container_id@) == Err::<Seq<EventView>, Error>(status.error)
                || (visible_log(final(self)@, container_id@) is Ok && window(
                visible_log(final(self)@, container_id@)->Ok_0,
                start,
                count,
            ) == Err::<Seq<EventView>, Error>(status.error))),
    {
        match self.agent.get_cc_eventlog(fetched, container_id, start, count) {
            Ok(log) => Ok(log),
            Err(e) => Err(Status::new(e)),
        }
    }

    /// Answers a request for a report, after taking in `fetched`, with what
    /// to ask the evidence source.
    pub fn get_cc_report(
        &mut self,
        fetched: &Vec<EventLogEntry>,
        container_id: String,
        nonce: Option<String>,
        user_data: Option<String>,
    ) -> (request: Result<ReportRequest, Status>)
        requires
            old(self).well_formed(),
        ensures
            final(self).well_formed(),
            taken_in(old(self)@, entry_views(fetched@), final(self)@),
            ingested_all(old(self)@, entry_views(fetched@)) is Ok && engine_free(
                entry_views(fetched@),
            ) ==> ingested_all(old(self)@, entry_views(fetched@)) == Ok::<AgentView, Error>(
                final(self)@,
            ),
            fetched@.len() == 0 ==> final(self)@ == old(self)@,
            request matches Ok(r) ==> report_nonce(
                final(self)@,
                container_id@,
                text_view(nonce),
            ) == Ok::<Option<Seq<char>>, Error>(text_view(r.nonce)) && r.user_data == user_data,
            request matches Err(status) ==> report_nonce(
                final(self)@,
                container_id@,
                text_view(nonce),
            ) == Err::<Option<Seq<char>>, Error>(status.error) && status.message@
                == status.error.message_spec(),
    {
        match self.agent.get_cc_report(fetched, container_id, nonce, user_data) {
            Ok(request) => Ok(request),
            Err(e) => Err(Status::new(e)),
        }
    }
}

} // verus!
