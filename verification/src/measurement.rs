//! The baseline: a register and its log, built once from the system
//! processes that the policy selects. Every container starts from it.

use vstd::prelude::*;
use vstd::slice::slice_to_vec;
use crate::agent::IMR;
use crate::error::Error;
use crate::hash::{
    extend_register, extend_spec, hash_bytes, lemma_replay_concat, lemma_replay_one, replay_spec,
    sha_digest, HashAlgorithm,
};
use crate::policy::{algorithm_by_name, PolicyConfig};
use crate::tcg::{
    digest_hashes, digest_size_spec, get_digest_size_from_algorithm_id, lemma_log_view_push,
    log_view, DigestView, EventView, TcgDigest, TcgEventlog, IMA_MEASUREMENT_EVENT,
};
use crate::text::{first_match, same_bytes, search_spec};

verus! {

/// A register with the log of what was folded into it.
pub struct RegisterView {
    pub imr: DigestView,
    pub log: Seq<EventView>,
}

/// The all-zero value that a register of `algo_id` starts from.
pub open spec fn zero_register(algo_id: u32) -> Seq<u8> {
    Seq::new(digest_size_spec(algo_id), |i: int| 0u8)
}

/// The digests of the records of a log, in the order in which they were
/// folded into the register.
pub open spec fn log_digests(log: Seq<EventView>) -> Seq<Seq<u8>>
    decreases log.len(),
{
    if log.len() == 0 {
        Seq::empty()
    } else {
        log_digests(log.drop_last()) + digest_hashes(log.last().digests)
    }
}

impl RegisterView {
    /// The register is what replaying the digests of the log from the
    /// all-zero register gives: whoever holds the log can compute it anew.
    pub open spec fn replayable(self) -> bool {
        self.imr.hash == replay_spec(
            self.imr.algo_id,
            zero_register(self.imr.algo_id),
            log_digests(self.log),
        )
    }
}

impl RegisterView {
    /// Every record of the log holds one digest, in the register's
    /// algorithm and of that algorithm's canonical length. This holds of a
    /// baseline, whose records are all its own measurements.
    pub open spec fn canonical_log(self) -> bool {
        forall|i: int|
            0 <= i < self.log.len() ==> (#[trigger] self.log[i]).digests.len() == 1
                && self.log[i].digests[0].algo_id == self.imr.algo_id
                && self.log[i].digests[0].well_formed()
    }
}

/// A register stays replayable when one record is logged and its digests
/// are folded into the register.
pub proof fn lemma_logged_replayable(state: RegisterView, entry: EventView)
    requires
        state.replayable(),
    ensures
        (RegisterView {
            imr: DigestView {
                algo_id: state.imr.algo_id,
                hash: replay_spec(state.imr.algo_id, state.imr.hash, digest_hashes(entry.digests)),
            },
            log: state.log.push(entry),
        }).replayable(),
{
    let log = state.log.push(entry);
    assert(log.drop_last() =~= state.log);
    assert(log.last() == entry);
    lemma_replay_concat(
        state.imr.algo_id,
        zero_register(state.imr.algo_id),
        log_digests(state.log),
        digest_hashes(entry.digests),
    );
}

/// The record that measuring `value` leaves in the log.
pub open spec fn measured_entry(algo_id: u32, value: Seq<u8>) -> EventView {
    EventView {
        rec_num: 0,
        imr_index: IMR::CONTAINER.index_spec(),
        event_type: IMA_MEASUREMENT_EVENT,
        event_size: value.len() as u32,
        event: value,
        digests: seq![DigestView { algo_id: algo_id, hash: sha_digest(algo_id, value) }],
        extra_info: Seq::empty(),
    }
}

/// The baseline after measuring `value`: the register is extended by the
/// digest of `value`, and the log by one record.
pub open spec fn measure_step(state: RegisterView, value: Seq<u8>) -> RegisterView {
    let algo_id = state.imr.algo_id;
    RegisterView {
        imr: DigestView {
            algo_id: algo_id,
            hash: extend_spec(algo_id, state.imr.hash, sha_digest(algo_id, value)),
        },
        log: state.log.push(measured_entry(algo_id, value)),
    }
}

/// Measuring keeps the baseline replayable.
pub proof fn lemma_measure_step_replayable(state: RegisterView, value: Seq<u8>)
    requires
        state.replayable(),
    ensures
        measure_step(state, value).replayable(),
{
    let algo_id = state.imr.algo_id;
    let entry = measured_entry(algo_id, value);
    assert(digest_hashes(entry.digests) =~= seq![sha_digest(algo_id, value)]);
    lemma_replay_one(algo_id, state.imr.hash, sha_digest(algo_id, value));
    lemma_logged_replayable(state, entry);
}

/// The baseline after measuring each of `values`, first to last.
pub open spec fn measure_all(state: RegisterView, values: Seq<Seq<u8>>) -> RegisterView
    decreases values.len(),
{
    if values.len() == 0 {
        state
    } else {
        measure_step(measure_all(state, values.drop_last()), values.last())
    }
}

/// The byte strings of a process table, pair by pair.
pub open spec fn table_view(table: Seq<(Vec<u8>, Vec<u8>)>) -> Seq<(Seq<u8>, Seq<u8>)> {
    Seq::new(table.len(), |i: int| (table[i].0@, table[i].1@))
}

/// The arguments of the process `name` in a table of running processes:
/// those of the last entry of that name, nothing if there is none.
pub open spec fn arguments_of(table: Seq<(Seq<u8>, Seq<u8>)>, name: Seq<u8>) -> Option<Seq<u8>>
    decreases table.len(),
{
    if table.len() == 0 {
        None
    } else if table.last().0 == name {
        Some(table.last().1)
    } else {
        arguments_of(table.drop_last(), name)
    }
}

/// What is measured of a running process: its name, followed by a NUL byte
/// and its arguments where the policy asks for them.
pub open spec fn process_value(name: Seq<u8>, arguments: Seq<u8>, with_parameter: bool) -> Seq<u8> {
    if with_parameter {
        name + seq![0u8] + arguments
    } else {
        name
    }
}

/// The values that the baseline is built from: one for each name of
/// `names` that runs, in the order of `names`.
pub open spec fn baseline_values(
    names: Seq<Seq<u8>>,
    with_parameter: bool,
    table: Seq<(Seq<u8>, Seq<u8>)>,
) -> Seq<Seq<u8>>
    decreases names.len(),
{
    if names.len() == 0 {
        Seq::empty()
    } else {
        let before = baseline_values(names.drop_last(), with_parameter, table);
        match arguments_of(table, names.last()) {
            Some(arguments) => before.push(process_value(names.last(), arguments, with_parameter)),
            None => before,
        }
    }
}

/// Where the policy lists one process and that process runs, the baseline
/// is built from one value, that of the process, and so by one step.
pub proof fn lemma_one_listed_process(
    state: RegisterView,
    names: Seq<Seq<u8>>,
    with_parameter: bool,
    table: Seq<(Seq<u8>, Seq<u8>)>,
)
    requires
        names.len() == 1,
        arguments_of(table, names[0]) is Some,
    ensures
        ({
            let value = process_value(names[0], arguments_of(table, names[0])->0, with_parameter);
            &&& baseline_values(names, with_parameter, table) == seq![value]
            &&& measure_all(state, baseline_values(names, with_parameter, table)) == measure_step(
                state,
                value,
            )
            &&& !with_parameter ==> value == names[0]
        }),
{
    let value = process_value(names[0], arguments_of(table, names[0])->0, with_parameter);
    assert(names.drop_last() =~= Seq::<Seq<u8>>::empty());
    assert(baseline_values(names.drop_last(), with_parameter, table) =~= Seq::<Seq<u8>>::empty());
    assert(baseline_values(names, with_parameter, table) =~= seq![value]);
    assert(seq![value].drop_last() =~= Seq::<Seq<u8>>::empty());
    assert(measure_all(state, seq![value].drop_last()) == state);
}

/// Building the baseline from nothing changes nothing; where the policy
/// lists no process that runs, there is nothing to build it from.
pub proof fn lemma_nothing_listed_runs(
    state: RegisterView,
    names: Seq<Seq<u8>>,
    with_parameter: bool,
    table: Seq<(Seq<u8>, Seq<u8>)>,
)
    requires
        forall|i: int| 0 <= i < names.len() ==> arguments_of(table, #[trigger] names[i]) is None,
    ensures
        baseline_values(names, with_parameter, table) == Seq::<Seq<u8>>::empty(),
        measure_all(state, baseline_values(names, with_parameter, table)) == state,
    decreases names.len(),
{
    if names.len() > 0 {
        lemma_nothing_listed_runs(state, names.drop_last(), with_parameter, table);
    }
}

/// The names of a policy's process list as byte strings.
pub open spec fn name_bytes(names: Seq<String>) -> Seq<Seq<u8>> {
    Seq::new(names.len(), |i: int| vstd::utf8::encode_utf8(names[i]@))
}

/// The values that `policy` selects from the running processes `table`.
pub open spec fn policy_values(policy: PolicyConfig, table: Seq<(Seq<u8>, Seq<u8>)>) -> Seq<
    Seq<u8>,
> {
    match policy.processes_spec() {
        Some(names) => baseline_values(
            name_bytes(names@),
            policy.with_parameter_spec() == Some(true),
            table,
        ),
        None => Seq::empty(),
    }
}

/// Pattern of the path of a directory that stands for a process: a slash
/// followed by a digit.
pub open spec fn process_pattern_spec() -> Seq<char> {
    ".*/[0-9]"@
}

/// Whether `path` is the path of a directory that stands for a process.
pub fn is_process_directory(path: &[u8]) -> (yes: bool)
    ensures
        yes == (search_spec(process_pattern_spec(), path@) is Some),
{
    first_match(".*/[0-9]", path).is_some()
}

/// Name and arguments in the command line of a process, which a NUL byte
/// parts; nothing for a command line without one.
pub open spec fn split_cmdline_spec(cmdline: Seq<u8>) -> Option<(Seq<u8>, Seq<u8>)> {
    if exists|at: int| 0 <= at < cmdline.len() && cmdline[at] == 0 {
        let at = choose|at: int|
            0 <= at < cmdline.len() && cmdline[at] == 0 && forall|k: int|
                0 <= k < at ==> cmdline[k] != 0;
        Some((cmdline.subrange(0, at), cmdline.subrange(at + 1, cmdline.len() as int)))
    } else {
        None
    }
}

/// Parts the command line of a process at its first NUL byte into the
/// process name and its arguments.
pub fn split_cmdline(cmdline: &[u8]) -> (parts: Option<(Vec<u8>, Vec<u8>)>)
    ensures
        parts is Some <==> split_cmdline_spec(cmdline@) is Some,
        parts matches Some(p) ==> split_cmdline_spec(cmdline@) == Some((p.0@, p.1@)),
        parts matches Some(p) ==> cmdline@ == p.0@ + seq![0u8] + p.1@ && !p.0@.contains(0u8),
{
    let mut at: usize = 0;
    while at < cmdline.len()
        invariant
            at <= cmdline@.len(),
            forall|k: int| 0 <= k < at ==> cmdline@[k] != 0,
        decreases cmdline@.len() - at,
    {
        if cmdline[at] == 0 {
            let name = slice_to_vec(vstd::slice::slice_subrange(cmdline, 0, at));
            let arguments = slice_to_vec(
                vstd::slice::slice_subrange(cmdline, at + 1, cmdline.len()),
            );
            proof {
                let chosen = choose|c: int|
                    0 <= c < cmdline@.len() && cmdline@[c] == 0 && forall|k: int|
                        0 <= k < c ==> cmdline@[k] != 0;
                assert(chosen == at) by {
                    if chosen < at {
                        assert(cmdline@[chosen] != 0);
                    } else if at < chosen {
                        assert(cmdline@[at as int] != 0);
                    }
                }
                assert(cmdline@ =~= name@ + seq![0u8] + arguments@);
            }
            return Some((name, arguments));
        }
        at = at + 1;
    }
    None
}

/// The values built from the first `shorter` names lead those built from
/// the first `longer` names.
pub proof fn lemma_baseline_values_prefix(
    names: Seq<Seq<u8>>,
    with_parameter: bool,
    table: Seq<(Seq<u8>, Seq<u8>)>,
    shorter: int,
    longer: int,
)
    requires
        0 <= shorter <= longer <= names.len(),
    ensures
        baseline_values(names.take(shorter), with_parameter, table).len() <= baseline_values(
            names.take(longer),
            with_parameter,
            table,
        ).len(),
        baseline_values(names.take(shorter), with_parameter, table) == baseline_values(
            names.take(longer),
            with_parameter,
            table,
        ).take(baseline_values(names.take(shorter), with_parameter, table).len() as int),
    decreases longer - shorter,
{
    let short = baseline_values(names.take(shorter), with_parameter, table);
    if shorter == longer {
        assert(short =~= short.take(short.len() as int));
    } else {
        lemma_baseline_values_prefix(names, with_parameter, table, shorter, longer - 1);
        let middle = baseline_values(names.take(longer - 1), with_parameter, table);
        let long = baseline_values(names.take(longer), with_parameter, table);
        assert(names.take(longer).drop_last() =~= names.take(longer - 1));
        assert(long.take(middle.len() as int) =~= middle);
        assert(long.take(short.len() as int) =~= middle.take(short.len() as int));
    }
}

/// Position of the last entry of `table` for the process `name`.
pub fn find_process(table: &Vec<(Vec<u8>, Vec<u8>)>, name: &[u8]) -> (position: Option<usize>)
    ensures
        position is Some <==> arguments_of(table_view(table@), name@) is Some,
        position matches Some(at) ==> at < table@.len() && table@[at as int].0@ == name@
            && arguments_of(table_view(table@), name@) == Some(table@[at as int].1@),
{
    let ghost whole = table_view(table@);
    let mut at: usize = table.len();
    assert(whole.take(at as int) =~= whole);
    while at > 0
        invariant
            at <= table@.len(),
            whole == table_view(table@),
            arguments_of(whole, name@) == arguments_of(whole.take(at as int), name@),
        decreases at,
    {
        at = at - 1;
        assert(whole.take(at + 1).last() == whole[at as int]);
        assert(whole.take(at + 1).drop_last() =~= whole.take(at as int));
        if same_bytes(table[at].0.as_slice(), name) {
            return Some(at);
        }
    }
    None
}

/// The baseline register with its log and the policy it is built by.
pub struct Measurement {
    policy: PolicyConfig,
    algorithm: HashAlgorithm,
    imr: TcgDigest,
    event_logs: Vec<TcgEventlog>,
}

impl View for Measurement {
    type V = RegisterView;

    closed spec fn view(&self) -> RegisterView {
        RegisterView { imr: self.imr@, log: log_view(self.event_logs@) }
    }
}

impl Measurement {
    /// The policy that this baseline is built by.
    pub closed spec fn policy_spec(&self) -> PolicyConfig {
        self.policy
    }

    /// The register's algorithm is supported, its value has the algorithm's
    /// canonical length, it is what replaying the log gives, and each
    /// record of the log holds one digest of that length.
    pub closed spec fn well_formed(&self) -> bool {
        &&& self.imr.algo_id == self.algorithm.id_spec()
        &&& self.imr@.well_formed()
        &&& self@.replayable()
        &&& self@.canonical_log()
    }

    /// A well-formed baseline holds a well-formed register, which the log
    /// accounts for, and every digest in its log has the canonical length.
    pub proof fn lemma_well_formed(&self)
        requires
            self.well_formed(),
        ensures
            self@.imr.well_formed(),
            self@.replayable(),
            self@.canonical_log(),
    {
    }

    /// The baseline before anything is measured: a register of zeros in the
    /// policy's algorithm, and an empty log.
    pub fn new(policy: PolicyConfig) -> (measurement: Measurement)
        requires
            algorithm_by_name(policy.algorithm_name()) is Some,
        ensures
            measurement.well_formed(),
            measurement@.imr.well_formed(),
            measurement@.canonical_log(),
            measurement.policy_spec() == policy,
            measurement@.imr.algo_id == algorithm_by_name(policy.algorithm_name())->0.id_spec(),
            measurement@.imr.hash == zero_register(measurement@.imr.algo_id),
            measurement@.log == Seq::<EventView>::empty(),
    {
        let algorithm = match policy.algorithm() {
            Ok(algorithm) => algorithm,
            Err(_) => HashAlgorithm::Sha384,
        };
        let algo_id = algorithm.id();
        let size = get_digest_size_from_algorithm_id(algo_id);
        let mut hash: Vec<u8> = Vec::new();
        let mut i: usize = 0;
        while i < size
            invariant
                i <= size,
                hash@.len() == i,
                forall|k: int| 0 <= k < i ==> hash@[k] == 0u8,
            decreases size - i,
        {
            hash.push(0u8);
            i = i + 1;
        }
        assert(hash@ =~= zero_register(algo_id));
        let measurement = Measurement {
            policy,
            algorithm,
            imr: TcgDigest { algo_id, hash },
            event_logs: Vec::new(),
        };
        assert(measurement@.log =~= Seq::<EventView>::empty());
        measurement
    }

    /// The register.
    pub fn imr(&self) -> (imr: &TcgDigest)
        ensures
            imr@ == self@.imr,
    {
        &self.imr
    }

    /// The log of what was measured, oldest first.
    pub fn event_logs(&self) -> (log: &Vec<TcgEventlog>)
        ensures
            log_view(log@) == self@.log,
    {
        &self.event_logs
    }

    /// Measures `val`: the register becomes the hash of its old value
    /// followed by the digest of `val`, and the log gains a record that
    /// holds `val` and that digest. A fault of the digest engine leaves the
    /// baseline as it was.
    pub fn extend_imr(&mut self, val: &[u8]) -> (done: Result<(), Error>)
        requires
            old(self).well_formed(),
            val@.len() <= u32::MAX,
        ensures
            final(self).well_formed(),
            final(self)@.imr.well_formed(),
            final(self)@.canonical_log(),
            final(self).policy_spec() == old(self).policy_spec(),
            done is Ok ==> final(self)@ == measure_step(old(self)@, val@),
            done is Ok ==> sha_digest(old(self)@.imr.algo_id, val@).len() == digest_size_spec(
                old(self)@.imr.algo_id,
            ),
            done matches Err(e) ==> e == Error::HashError && final(self)@ == old(self)@,
    {
        let digest = match hash_bytes(self.algorithm, val) {
            Ok(digest) => digest,
            Err(e) => { return Err(e); },
        };
        let next = match extend_register(self.algorithm, &self.imr.hash, &digest) {
            Ok(next) => next,
            Err(e) => { return Err(e); },
        };
        let entry = TcgEventlog {
            rec_num: 0,
            imr_index: IMR::CONTAINER.index(),
            event_type: IMA_MEASUREMENT_EVENT,
            event_size: val.len() as u32,
            event: slice_to_vec(val),
            digests: vec![TcgDigest { algo_id: self.imr.algo_id, hash: digest }],
            extra_info: Vec::new(),
        };
        proof {
            lemma_log_view_push(self.event_logs@, entry);
            assert(entry@.digests =~= measured_entry(self.imr.algo_id, val@).digests);
            assert(entry@.extra_info =~= Seq::empty());
            assert(entry@ == measured_entry(self.imr.algo_id, val@));
            lemma_measure_step_replayable(self@, val@);
        }
        self.imr.hash = next;
        self.event_logs.push(entry);
        Ok(())
    }

    /// Builds the baseline from the running processes `processes`, a list of
    /// process names with their arguments: each process that the policy
    /// lists and that runs is measured, in the policy's order, by its name
    /// or, where the policy asks for parameters, by its name, a NUL byte and
    /// its arguments. Where a process occurs twice, its last entry counts.
    /// Processes that do not run are passed over. A fault of the digest
    /// engine ends the work after the values measured until then.
    pub fn measure_system(&mut self, processes: &Vec<(Vec<u8>, Vec<u8>)>) -> (done: Result<
        (),
        Error,
    >)
        requires
            old(self).well_formed(),
            forall|i: int|
                0 <= i < processes@.len() ==> (#[trigger] processes@[i]).0@.len()
                    + processes@[i].1@.len() < u32::MAX,
        ensures
            final(self).well_formed(),
            final(self)@.imr.well_formed(),
            final(self)@.canonical_log(),
            final(self).policy_spec() == old(self).policy_spec(),
            done is Ok ==> final(self)@ == measure_all(
                old(self)@,
                policy_values(old(self).policy_spec(), table_view(processes@)),
            ),
            done matches Err(e) ==> e == Error::HashError && exists|k: int|
                0 <= k < policy_values(old(self).policy_spec(), table_view(processes@)).len()
                    && final(self)@ == measure_all(
                    old(self)@,
                    policy_values(old(self).policy_spec(), table_view(processes@)).take(k),
                ),
    {
        let with_parameter = match self.policy.system_with_parameter() {
            Some(flag) => flag,
            None => false,
        };
        let names: Vec<String> = match self.policy.system_processes() {
            Some(list) => list.clone(),
            None => { return Ok(()); },
        };
        assert(names@ =~= old(self).policy_spec().processes_spec()->0@) by {
            assert(forall|i: int| 0 <= i < names@.len() ==> names@[i] == old(
                self,
            ).policy_spec().processes_spec()->0@[i]);
        }
        let ghost start = self@;
        let ghost table = table_view(processes@);
        let ghost all_names = name_bytes(names@);
        let ghost values = baseline_values(all_names, with_parameter, table);
        assert(all_names.take(all_names.len() as int) =~= all_names);
        let mut i: usize = 0;
        assert(all_names.take(0) =~= Seq::<Seq<u8>>::empty());
        while i < names.len()
            invariant
                i <= names@.len(),
                self.well_formed(),
                self.policy_spec() == old(self).policy_spec(),
                table == table_view(processes@),
                all_names == name_bytes(names@),
                values == baseline_values(all_names, with_parameter, table),
                values == policy_values(old(self).policy_spec(), table_view(processes@)),
                start == old(self)@,
                forall|k: int|
                    0 <= k < processes@.len() ==> (#[trigger] processes@[k]).0@.len()
                        + processes@[k].1@.len() < u32::MAX,
                self@ == measure_all(
                    start,
                    baseline_values(all_names.take(i as int), with_parameter, table),
                ),
            decreases names@.len() - i,
        {
            let ghost before = baseline_values(all_names.take(i as int), with_parameter, table);
            let ghost after = baseline_values(all_names.take(i + 1), with_parameter, table);
            proof {
                assert(all_names.take(i + 1).drop_last() =~= all_names.take(i as int));
                assert(all_names.take(i + 1).last() == all_names[i as int]);
                lemma_baseline_values_prefix(
                    all_names,
                    with_parameter,
                    table,
                    i + 1,
                    all_names.len() as int,
                );
                assert(all_names.take(all_names.len() as int) =~= all_names);
            }
            let name = names[i].as_str().as_bytes();
            assert(name@ == all_names[i as int]);
            match find_process(processes, name) {
                Some(at) => {
                    let mut value = slice_to_vec(name);
                    if with_parameter {
                        value.push(0u8);
                        let arguments = &processes[at].1;
                        let mut j: usize = 0;
                        while j < arguments.len()
                            invariant
                                j <= arguments@.len(),
                                value@ == name@ + seq![0u8] + arguments@.subrange(0, j as int),
                            decreases arguments@.len() - j,
                        {
                            value.push(arguments[j]);
                            j = j + 1;
                        }
                        assert(arguments@.subrange(0, j as int) =~= arguments@);
                    }
                    assert(value@ == process_value(
                        name@,
                        processes@[at as int].1@,
                        with_parameter,
                    ));
                    assert(after == before.push(value@));
                    assert(after.drop_last() =~= before);
                    match self.extend_imr(value.as_slice()) {
                        Ok(()) => {},
                        Err(e) => {
                            assert(after == values.take(after.len() as int));
                            assert(values.take(before.len() as int) =~= before);
                            return Err(e);
                        },
                    }
                },
                None => {
                    assert(after == before);
                },
            }
            i = i + 1;
        }
        Ok(())
    }

    /// Builds the baseline from the running processes, as the policy asks.
    pub fn measure(&mut self, processes: &Vec<(Vec<u8>, Vec<u8>)>) -> (done: Result<(), Error>)
        requires
            old(self).well_formed(),
            forall|i: int|
                0 <= i < processes@.len() ==> (#[trigger] processes@[i]).0@.len()
                    + processes@[i].1@.len() < u32::MAX,
        ensures
            final(self).well_formed(),
            final(self)@.imr.well_formed(),
            final(self)@.canonical_log(),
            final(self).policy_spec() == old(self).policy_spec(),
            done is Ok ==> final(self)@ == measure_all(
                old(self)@,
                policy_values(old(self).policy_spec(), table_view(processes@)),
            ),
            done matches Err(e) ==> e == Error::HashError && exists|k: int|
                0 <= k < policy_values(old(self).policy_spec(), table_view(processes@)).len()
                    && final(self)@ == measure_all(
                    old(self)@,
                    policy_values(old(self).policy_spec(), table_view(processes@)).take(k),
                ),
    {
        self.measure_system(processes)
    }

    /// Whether containers are isolated from each other; they are not where
    /// the policy does not say.
    pub fn container_isolated(&self) -> (isolated: bool)
        ensures
            isolated == (self.policy_spec().isolated_spec() == Some(true)),
    {
        match self.policy.container_isolated() {
            Some(flag) => flag,
            None => false,
        }
    }
}

} // verus!
