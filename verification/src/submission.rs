//! Submissions and the orchestrator that takes them.
//!
//! A submission is one agent's estimate on one belief. The orchestrator reads
//! the submitter's weight from the registry, folds the estimate into the
//! belief, and appends a record to a log whose records never change.
//!
//! Every condition is examined before the first change, so a submission that fails
//! leaves the registry, the store and the log exactly as they were.
//!
//! Each submission earns an accuracy bonus, which the receipt reports. The
//! bonus is not added to the submitter's score: reputation changes only
//! through `AgentRegistry::update_score`, which no call message reaches.
use crate::agent::{Address, Agent, AgentRegistry, Agents};
use crate::assoc::lookup;
use crate::belief::{
    count_after, next_count, view_of, Belief, BeliefId, BeliefStore, BeliefView, Beliefs,
};
use crate::error::Error;
use crate::fixed::{accuracy_bonus, bonus_spec, distance, distance_spec, MAX_BONUS, SCALE};
use vstd::prelude::*;

verus! {

/// One recorded estimate.
#[derive(Debug)]
pub struct Submission {
    /// Who submitted.
    pub agent: Address,
    /// The belief that the estimate is on.
    pub belief_id: BeliefId,
    /// The estimate, out of `SCALE`.
    pub value: u64,
    /// The submitter's weight at the time.
    pub weight: u64,
    /// The position of the record in the log.
    pub sequence: u64,
}

/// A submission as a mathematical value.
pub struct SubmissionView {
    pub agent: Seq<u8>,
    pub belief_id: BeliefId,
    pub value: u64,
    pub weight: u64,
    pub sequence: u64,
}

impl View for Submission {
    type V = SubmissionView;

    open spec fn view(&self) -> SubmissionView {
        SubmissionView {
            agent: self.agent@,
            belief_id: self.belief_id,
            value: self.value,
            weight: self.weight,
            sequence: self.sequence,
        }
    }
}

impl Clone for Submission {
    fn clone(&self) -> (copy: Submission)
        ensures
            copy@ == self@,
    {
        Submission {
            agent: self.agent.clone(),
            belief_id: self.belief_id,
            value: self.value,
            weight: self.weight,
            sequence: self.sequence,
        }
    }
}

impl SubmissionView {
    /// Whether a record that is supplied from outside can go on the log: its
    /// value is a probability.
    pub open spec fn admissible(self) -> bool {
        self.value <= SCALE
    }
}

impl Submission {
    /// A record supplied from outside: refused where it is not admissible.
    pub open spec fn admitted_spec(record: SubmissionView) -> Result<(), Error> {
        if record.admissible() {
            Ok(())
        } else {
            Err(Error::ValueOutOfRange)
        }
    }

    /// Decides whether this record, supplied from outside, can go on a log.
    ///
    /// Fails with `ValueOutOfRange` where its value is above `SCALE`.
    pub fn admitted(&self) -> (r: Result<(), Error>)
        ensures
            r == Self::admitted_spec(self@),
    {
        if self.value <= SCALE {
            Ok(())
        } else {
            Err(Error::ValueOutOfRange)
        }
    }

    /// A copy of the record, numbered for the position `sequence` of a log.
    pub fn at_position(&self, sequence: u64) -> (numbered: Submission)
        ensures
            numbered@ == (SubmissionView {
                agent: self@.agent,
                belief_id: self@.belief_id,
                value: self@.value,
                weight: self@.weight,
                sequence,
            }),
    {
        Submission {
            agent: self.agent.clone(),
            belief_id: self.belief_id,
            value: self.value,
            weight: self.weight,
            sequence,
        }
    }
}

/// What a successful submission reports back.
#[derive(Clone, Copy, Debug, PartialEq, Eq, Structural)]
pub struct Receipt {
    /// The belief's aggregate after the submission.
    pub new_aggregate: u64,
    /// The weight that the submission carried.
    pub weight: u64,
    /// The accuracy bonus that the submission earned.
    pub score_delta: u64,
    /// The position of the submission's record in the log.
    pub sequence: u64,
}

/// The calls that any address may make on the orchestrator.
#[derive(Clone, Copy, Debug, PartialEq, Eq, Structural)]
pub enum CallMessage {
    SubmitBelief { belief_id: BeliefId, value: u64 },
}

/// The submissions that are on record before the first call.
pub struct GenesisConfig {
    pub initial_submissions: Vec<Submission>,
}

impl View for GenesisConfig {
    type V = Seq<SubmissionView>;

    open spec fn view(&self) -> Seq<SubmissionView> {
        Seq::new(self.initial_submissions@.len(), |i: int| self.initial_submissions@[i]@)
    }
}

/// The log's state: the records in the order of their arrival.
pub type Log = Seq<SubmissionView>;

/// Whether every record of a sequence is admissible: every value is a
/// probability, at most `SCALE`.
pub open spec fn all_admissible(records: Seq<SubmissionView>) -> bool {
    forall|i: int| 0 <= i < records.len() ==> (#[trigger] records[i]).admissible()
}

/// A genesis configuration is refused as a whole where one of its records
/// is not admissible.
pub open spec fn validated_spec(records: Seq<SubmissionView>) -> Result<(), Error> {
    if all_admissible(records) {
        Ok(())
    } else {
        Err(Error::ValueOutOfRange)
    }
}

impl GenesisConfig {
    /// Decides whether the configuration can go on a log.
    ///
    /// Fails with `ValueOutOfRange` where a record has a value above `SCALE`.
    pub fn validated(&self) -> (r: Result<(), Error>)
        ensures
            r == validated_spec(self@),
    {
        let mut i: usize = 0;
        while i < self.initial_submissions.len()
            invariant
                i <= self.initial_submissions@.len(),
                self@.len() == self.initial_submissions@.len(),
                forall|j: int| 0 <= j < i ==> (#[trigger] self@[j]).admissible(),
            decreases self.initial_submissions@.len() - i,
        {
            let admitted: Result<(), Error> = self.initial_submissions[i].admitted();
            assert(self.initial_submissions@[i as int]@ == self@[i as int]);
            if admitted.is_err() {
                assert(!self@[i as int].admissible());
                return Err(Error::ValueOutOfRange);
            }
            i += 1;
        }
        Ok(())
    }
}

/// Each record carries its own position.
pub open spec fn numbered(log: Log) -> bool {
    forall|i: int| 0 <= i < log.len() ==> (#[trigger] log[i]).sequence == i
}

/// `record`, numbered as the next record of `log`.
pub open spec fn stamped(log: Log, record: SubmissionView) -> SubmissionView {
    SubmissionView {
        agent: record.agent,
        belief_id: record.belief_id,
        value: record.value,
        weight: record.weight,
        sequence: log.len() as u64,
    }
}

/// Genesis: a configuration with a record that is not admissible is refused
/// and changes nothing; any other is appended.
pub open spec fn genesis_spec(log: Log, records: Seq<SubmissionView>) -> (
    Log,
    Result<(), Error>,
) {
    match validated_spec(records) {
        Err(e) => (log, Err(e)),
        Ok(_) => (appended_spec(log, records), Ok(())),
    }
}

/// The log after the records of a genesis configuration were appended in
/// order, each numbered by the position it came to.
pub open spec fn appended_spec(log: Log, records: Seq<SubmissionView>) -> Log
    decreases records.len(),
{
    if records.len() == 0 {
        log
    } else {
        let before = appended_spec(log, records.drop_last());
        before.push(stamped(before, records.last()))
    }
}

/// The records of `log` that are on the belief `belief_id`, in order.
pub open spec fn on_belief(log: Log, belief_id: BeliefId) -> Log
    decreases log.len(),
{
    if log.len() == 0 {
        log
    } else if log.last().belief_id == belief_id {
        on_belief(log.drop_last(), belief_id).push(log.last())
    } else {
        on_belief(log.drop_last(), belief_id)
    }
}

/// The accuracy bonus of a submission of `value` that produced `aggregate`.
pub open spec fn score_delta_spec(value: u64, aggregate: u64) -> u64 {
    bonus_spec(distance_spec(value, aggregate))
}

/// What a successful submission leaves to be stored and reported.
pub struct Settlement {
    /// The belief after the submission.
    pub belief: Belief,
    /// The belief's submission count after the submission.
    pub submission_count: u64,
    /// The record to append to the log.
    pub submission: Submission,
    /// What the submitter is told.
    pub receipt: Receipt,
}

/// A settlement as a mathematical value.
pub struct SettlementView {
    pub belief: BeliefView,
    pub submission_count: u64,
    pub submission: SubmissionView,
    pub receipt: Receipt,
}

impl View for Settlement {
    type V = SettlementView;

    open spec fn view(&self) -> SettlementView {
        SettlementView {
            belief: self.belief@,
            submission_count: self.submission_count,
            submission: self.submission@,
            receipt: self.receipt,
        }
    }
}

/// A submission of `value` by `sender` on the belief `belief_id`, given the
/// sender's agent, the belief with its submission count, and the position
/// that the record will take in the log.
///
/// It fails with `ValueOutOfRange` where the value is above `SCALE`; else with
/// `NotRegistered` where the sender has no agent; else with `ZeroWeight` where
/// the sender's weight is zero; else with `NotFound` where there is no belief.
pub open spec fn settled_spec(
    agent: Option<Agent>,
    belief: Option<BeliefView>,
    count: u64,
    sender: Seq<u8>,
    belief_id: BeliefId,
    value: u64,
    sequence: u64,
) -> Result<SettlementView, Error> {
    if value > SCALE {
        Err(Error::ValueOutOfRange)
    } else {
        match Agent::weight_of_spec(agent) {
            Err(e) => Err(e),
            Ok(weight) => if weight == 0 {
                Err(Error::ZeroWeight)
            } else {
                match Belief::absorbed_spec(belief, value, weight) {
                    Err(e) => Err(e),
                    Ok(updated) => Ok(
                        SettlementView {
                            belief: updated,
                            submission_count: count_after(count),
                            submission: SubmissionView {
                                agent: sender,
                                belief_id,
                                value,
                                weight,
                                sequence,
                            },
                            receipt: Receipt {
                                new_aggregate: updated.aggregate,
                                weight,
                                score_delta: score_delta_spec(value, updated.aggregate),
                                sequence,
                            },
                        },
                    ),
                }
            },
        }
    }
}

/// A submission of `value` by `sender` on the belief `belief_id`, on the
/// state of an engine. A failure changes nothing. Success stores the belief
/// and the count of the settlement and appends its record. The registry is
/// only read.
pub open spec fn submit_spec(
    agents: Agents,
    beliefs: Beliefs,
    log: Log,
    sender: Seq<u8>,
    belief_id: BeliefId,
    value: u64,
) -> (Beliefs, Log, Result<Receipt, Error>) {
    match settled_spec(
        lookup(agents, sender),
        lookup(beliefs.beliefs, belief_id),
        beliefs.submission_counts[belief_id],
        sender,
        belief_id,
        value,
        log.len() as u64,
    ) {
        Err(e) => (beliefs, log, Err(e)),
        Ok(settlement) => (
            beliefs.with(settlement.belief, settlement.submission_count),
            log.push(settlement.submission),
            Ok(settlement.receipt),
        ),
    }
}

/// Decides a submission from the records that it touches: what to store and
/// report where it succeeds, and why it fails where it does not.
pub fn settled(
    agent: Option<Agent>,
    belief: Option<&Belief>,
    count: u64,
    sender: &Address,
    belief_id: BeliefId,
    value: u64,
    sequence: u64,
) -> (r: Result<Settlement, Error>)
    ensures
        match r {
            Ok(settlement) => settled_spec(
                agent,
                view_of(belief),
                count,
                sender@,
                belief_id,
                value,
                sequence,
            ) == Ok::<SettlementView, Error>(settlement@),
            Err(e) => settled_spec(
                agent,
                view_of(belief),
                count,
                sender@,
                belief_id,
                value,
                sequence,
            ) == Err::<SettlementView, Error>(e),
        },
{
    if value > SCALE {
        return Err(Error::ValueOutOfRange);
    }
    let weight: u64 = match Agent::weight_of(agent) {
        Ok(weight) => weight,
        Err(e) => {
            return Err(e);
        },
    };
    if weight == 0 {
        return Err(Error::ZeroWeight);
    }
    let updated: Belief = match Belief::absorbed(belief, value, weight) {
        Ok(updated) => updated,
        Err(e) => {
            return Err(e);
        },
    };
    let new_aggregate: u64 = updated.aggregate;
    Ok(
        Settlement {
            belief: updated,
            submission_count: next_count(count),
            submission: Submission { agent: sender.clone(), belief_id, value, weight, sequence },
            receipt: Receipt {
                new_aggregate,
                weight,
                score_delta: score_delta(value, new_aggregate),
                sequence,
            },
        },
    )
}

/// The accuracy bonus of a submission of `value` that produced `aggregate`:
/// `MAX_BONUS` where the two agree, less the further apart they are.
pub fn score_delta(value: u64, aggregate: u64) -> (bonus: u64)
    ensures
        bonus == score_delta_spec(value, aggregate),
        bonus <= MAX_BONUS,
{
    accuracy_bonus(distance(value, aggregate))
}

/// Owns the log of submissions.
pub struct SubmissionOrchestrator {
    submissions: Vec<Submission>,
}

impl View for SubmissionOrchestrator {
    type V = Log;

    closed spec fn view(&self) -> Log {
        views(self.submissions@)
    }
}

impl Default for SubmissionOrchestrator {
    fn default() -> (orchestrator: SubmissionOrchestrator)
        ensures
            orchestrator.wf(),
            orchestrator@ == Seq::<SubmissionView>::empty(),
    {
        SubmissionOrchestrator::new()
    }
}

impl SubmissionOrchestrator {
    /// Each record of the log carries its own position, and every value on
    /// the log is a probability.
    pub open spec fn wf(self) -> bool {
        numbered(self@) && all_admissible(self@)
    }

    /// An orchestrator with an empty log.
    pub fn new() -> (orchestrator: SubmissionOrchestrator)
        ensures
            orchestrator.wf(),
            orchestrator@ == Seq::<SubmissionView>::empty(),
    {
        let orchestrator = SubmissionOrchestrator { submissions: Vec::new() };
        assert(orchestrator@ =~= Seq::<SubmissionView>::empty());
        orchestrator
    }

    /// Appends a record, numbered by the position it comes to.
    fn append(&mut self, agent: Address, belief_id: BeliefId, value: u64, weight: u64) -> (sequence:
        u64)
        requires
            old(self).wf(),
            value <= SCALE,
        ensures
            final(self).wf(),
            sequence == old(self)@.len(),
            final(self)@ == old(self)@.push(
                SubmissionView { agent: agent@, belief_id, value, weight, sequence },
            ),
    {
        let ghost log = self@;
        let sequence: u64 = self.submissions.len() as u64;
        let record = Submission { agent, belief_id, value, weight, sequence };
        let ghost view = record@;
        self.submissions.push(record);
        assert(self@ =~= log.push(view));
        sequence
    }

    /// How many submissions are on record.
    pub fn len(&self) -> (n: usize)
        ensures
            n == self@.len(),
    {
        self.submissions.len()
    }

    /// Appends the records of a genesis configuration, in order, each
    /// numbered by the position it comes to.
    ///
    /// Fails with `ValueOutOfRange`, and appends nothing, where a supplied
    /// record has a value above `SCALE`.
    pub fn genesis(&mut self, config: &GenesisConfig) -> (r: Result<(), Error>)
        requires
            old(self).wf(),
        ensures
            final(self).wf(),
            (final(self)@, r) == genesis_spec(old(self)@, config@),
    {
        match config.validated() {
            Err(e) => Err(e),
            Ok(_) => {
                self.append_all(config);
                Ok(())
            },
        }
    }

    /// Appends the records of an admissible configuration, in order, each
    /// numbered by the position it comes to.
    pub(crate) fn append_all(&mut self, config: &GenesisConfig)
        requires
            old(self).wf(),
            all_admissible(config@),
        ensures
            final(self).wf(),
            final(self)@ == appended_spec(old(self)@, config@),
    {
        let mut i: usize = 0;
        while i < config.initial_submissions.len()
            invariant
                self.wf(),
                all_admissible(config@),
                i <= config.initial_submissions@.len(),
                config@.len() == config.initial_submissions@.len(),
                self@ == appended_spec(old(self)@, config@.take(i as int)),
            decreases config.initial_submissions@.len() - i,
        {
            let record: &Submission = &config.initial_submissions[i];
            proof {
                let done = config@.take(i + 1);
                assert(done.drop_last() =~= config@.take(i as int));
                assert(done.last() == record@);
                assert(config@[i as int].admissible());
            }
            self.append(record.agent.clone(), record.belief_id, record.value, record.weight);
            i += 1;
        }
        assert(config@.take(i as int) =~= config@);
    }

    /// Takes the estimate `value` of `sender` on the belief `belief_id`.
    ///
    /// Reads the sender's weight from `agents`, folds the estimate into the
    /// belief in `beliefs`, and appends a record to the log. On failure nothing
    /// has changed.
    pub fn submit_belief(
        &mut self,
        belief_id: BeliefId,
        value: u64,
        sender: &Address,
        agents: &AgentRegistry,
        beliefs: &mut BeliefStore,
    ) -> (r: Result<Receipt, Error>)
        requires
            old(self).wf(),
            agents.wf(),
            old(beliefs).wf(),
        ensures
            final(self).wf(),
            final(beliefs).wf(),
            final(beliefs)@.valid(),
            (final(beliefs)@, final(self)@, r) == submit_spec(
                agents@,
                old(beliefs)@,
                old(self)@,
                sender@,
                belief_id,
                value,
            ),
    {
        proof {
            beliefs.lemma_valid();
        }
        if value > SCALE {
            return Err(Error::ValueOutOfRange);
        }
        let weight: u64 = match agents.get_weight(sender) {
            Ok(weight) => weight,
            Err(e) => {
                return Err(e);
            },
        };
        if weight == 0 {
            return Err(Error::ZeroWeight);
        }
        let new_aggregate: u64 = match beliefs.update_aggregate(belief_id, value, weight) {
            Ok(aggregate) => aggregate,
            Err(e) => {
                return Err(e);
            },
        };
        let bonus: u64 = score_delta(value, new_aggregate);
        let sequence: u64 = self.append(sender.clone(), belief_id, value, weight);
        Ok(Receipt { new_aggregate, weight, score_delta: bonus, sequence })
    }

    /// Carries out one call by `sender`.
    pub fn call(
        &mut self,
        msg: CallMessage,
        sender: &Address,
        agents: &AgentRegistry,
        beliefs: &mut BeliefStore,
    ) -> (r: Result<Receipt, Error>)
        requires
            old(self).wf(),
            agents.wf(),
            old(beliefs).wf(),
        ensures
            final(self).wf(),
            final(beliefs).wf(),
            final(beliefs)@.valid(),
            match msg {
                CallMessage::SubmitBelief { belief_id, value } => (
                    final(beliefs)@,
                    final(self)@,
                    r,
                ) == submit_spec(agents@, old(beliefs)@, old(self)@, sender@, belief_id, value),
            },
    {
        match msg {
            CallMessage::SubmitBelief { belief_id, value } => self.submit_belief(
                belief_id,
                value,
                sender,
                agents,
                beliefs,
            ),
        }
    }

    /// The submissions on the belief `belief_id`, in the order of their arrival.
    pub fn get_submissions(&self, belief_id: BeliefId) -> (found: Vec<Submission>)
        ensures
            views(found@) == on_belief(self@, belief_id),
    {
        select_on_belief(&self.submissions, belief_id)
    }

    /// Every submission on record, in the order of their arrival.
    pub fn get_all_submissions(&self) -> (all: Vec<Submission>)
        ensures
            views(all@) == self@,
            all@.len() == self@.len(),
    {
        let mut all: Vec<Submission> = Vec::new();
        let mut i: usize = 0;
        assert(views(all@) =~= self@.take(0));
        while i < self.submissions.len()
            invariant
                i <= self.submissions@.len(),
                self@.len() == self.submissions@.len(),
                views(all@) == self@.take(i as int),
            decreases self.submissions@.len() - i,
        {
            let ghost before = all@;
            all.push(self.submissions[i].clone());
            assert(views(all@) =~= views(before).push(self@[i as int]));
            assert(self@.take(i + 1) =~= self@.take(i as int).push(self@[i as int]));
            i += 1;
        }
        assert(self@.take(i as int) =~= self@);
        all
    }
}

/// The views of a sequence of records.
pub open spec fn views(records: Seq<Submission>) -> Log {
    Seq::new(records.len(), |i: int| records[i]@)
}

/// Copies of the records that are on the belief `belief_id`, in order.
pub fn select_on_belief(records: &Vec<Submission>, belief_id: BeliefId) -> (found: Vec<Submission>)
    ensures
        views(found@) == on_belief(views(records@), belief_id),
{
    let ghost log = views(records@);
    let mut found: Vec<Submission> = Vec::new();
    let mut i: usize = 0;
    assert(log.take(0) =~= Seq::<SubmissionView>::empty());
    assert(views(found@) =~= Seq::<SubmissionView>::empty());
    while i < records.len()
        invariant
            i <= records@.len(),
            log == views(records@),
            views(found@) == on_belief(log.take(i as int), belief_id),
        decreases records@.len() - i,
    {
        let ghost before = found@;
        let record: &Submission = &records[i];
        proof {
            let done = log.take(i + 1);
            assert(done.drop_last() =~= log.take(i as int));
            assert(done.last() == record@);
        }
        if record.belief_id == belief_id {
            found.push(record.clone());
            assert(views(found@) =~= views(before).push(record@));
        }
        i += 1;
    }
    assert(log.take(i as int) =~= log);
    found
}

/// A submission by an address without an agent, with a value in range, fails
/// with `NotRegistered`, and the store and the log stay as they were. (The
/// registry is only ever read.)
pub proof fn lemma_unregistered_submission_fails(
    agents: Agents,
    beliefs: Beliefs,
    log: Log,
    sender: Seq<u8>,
    belief_id: BeliefId,
    value: u64,
)
    requires
        value <= SCALE,
        !agents.dom().contains(sender),
    ensures
        submit_spec(agents, beliefs, log, sender, belief_id, value) == (
            beliefs,
            log,
            Err::<Receipt, Error>(Error::NotRegistered),
        ),
{
}

/// A submission by an agent whose weight is zero, with a value in range,
/// fails with `ZeroWeight`, and the store and the log stay as they were.
pub proof fn lemma_weightless_submission_fails(
    agents: Agents,
    beliefs: Beliefs,
    log: Log,
    sender: Seq<u8>,
    belief_id: BeliefId,
    value: u64,
)
    requires
        value <= SCALE,
        agents.dom().contains(sender),
        agents[sender].stake == 0 || agents[sender].score == 0,
    ensures
        submit_spec(agents, beliefs, log, sender, belief_id, value) == (
            beliefs,
            log,
            Err::<Receipt, Error>(Error::ZeroWeight),
        ),
{
    assert(agents[sender].stake * agents[sender].score == 0) by (nonlinear_arith)
        requires
            agents[sender].stake == 0 || agents[sender].score == 0,
    ;
}

/// The log grows by exactly one record when a submission succeeds and not at
/// all when it fails; the records already there are never touched, and a
/// failure leaves the store as it was too.
pub proof fn lemma_log_grows_by_one_on_success(
    agents: Agents,
    beliefs: Beliefs,
    log: Log,
    sender: Seq<u8>,
    belief_id: BeliefId,
    value: u64,
)
    ensures
        ({
            let after = submit_spec(agents, beliefs, log, sender, belief_id, value);
            &&& after.2 is Ok ==> after.1.len() == log.len() + 1 && after.1.drop_last() == log
            &&& after.2 is Err ==> after.1 == log && after.0 == beliefs
        }),
{
    let after = submit_spec(agents, beliefs, log, sender, belief_id, value);
    if after.2 is Ok {
        assert(after.1.drop_last() =~= log);
    }
}

/// Every value on the log stays a probability: a submission only ever
/// appends a value of at most `SCALE`, and genesis refuses any other.
pub proof fn lemma_log_values_stay_in_range(
    agents: Agents,
    beliefs: Beliefs,
    log: Log,
    sender: Seq<u8>,
    belief_id: BeliefId,
    value: u64,
    records: Seq<SubmissionView>,
)
    requires
        all_admissible(log),
    ensures
        all_admissible(submit_spec(agents, beliefs, log, sender, belief_id, value).1),
        all_admissible(genesis_spec(log, records).0),
{
    if all_admissible(records) {
        lemma_appended_admissible(log, records);
    }
}

/// Appending admissible records to a log of admissible records gives a log
/// of admissible records.
pub proof fn lemma_appended_admissible(log: Log, records: Seq<SubmissionView>)
    requires
        all_admissible(log),
        all_admissible(records),
    ensures
        all_admissible(appended_spec(log, records)),
    decreases records.len(),
{
    if records.len() > 0 {
        let earlier = records.drop_last();
        assert forall|i: int| 0 <= i < earlier.len() implies (#[trigger] earlier[i]).admissible(
        ) by {
            assert(earlier[i] == records[i]);
        }
        lemma_appended_admissible(log, earlier);
        assert(records.last().admissible());
    }
}

/// A log in which each record carries its position stays so when a
/// submission is taken, as long as positions fit in 64 bits.
pub proof fn lemma_submit_keeps_numbering(
    agents: Agents,
    beliefs: Beliefs,
    log: Log,
    sender: Seq<u8>,
    belief_id: BeliefId,
    value: u64,
)
    requires
        numbered(log),
        log.len() <= u64::MAX,
    ensures
        numbered(submit_spec(agents, beliefs, log, sender, belief_id, value).1),
{
}

} // verus!
