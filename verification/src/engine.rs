//! The engine as a whole: the registry, the store and the log under one
//! roof, the calls that reach them, and the replay of a sequence of calls.
//!
//! What a call does is a function of the state and the call alone. Two
//! engines that start from the same state and take the same calls in the same
//! order therefore end in the same state.
use crate::agent::{Address, AgentRegistry, Agents};
use crate::belief::{BeliefStore, Beliefs};
use crate::error::Error;
use crate::submission::{submit_spec, Log, SubmissionOrchestrator};
use vstd::prelude::*;

verus! {

/// A call on one of the engine's three parts.
#[derive(Clone, Copy, Debug, PartialEq, Eq, Structural)]
pub enum RuntimeCall {
    Agent(crate::agent::CallMessage),
    Belief(crate::belief::CallMessage),
    Submission(crate::submission::CallMessage),
}

/// A call together with the address that the host authenticated for it.
pub struct Transaction {
    pub sender: Address,
    pub call: RuntimeCall,
}

impl View for Transaction {
    type V = (Seq<u8>, RuntimeCall);

    open spec fn view(&self) -> (Seq<u8>, RuntimeCall) {
        (self.sender@, self.call)
    }
}

/// What exists before the first call.
pub struct GenesisConfig {
    pub agents: crate::agent::GenesisConfig,
    pub beliefs: crate::belief::GenesisConfig,
    pub submissions: crate::submission::GenesisConfig,
}

/// The engine's whole state.
pub struct State {
    pub agents: Agents,
    pub beliefs: Beliefs,
    pub log: Log,
}

/// A genesis configuration is refused as a whole where one of its beliefs
/// or one of its submissions is not admissible.
pub open spec fn validated_spec(
    beliefs: Seq<crate::belief::BeliefView>,
    submissions: Seq<crate::submission::SubmissionView>,
) -> Result<(), Error> {
    if crate::belief::all_admissible(beliefs) && crate::submission::all_admissible(submissions) {
        Ok(())
    } else {
        Err(Error::ValueOutOfRange)
    }
}

impl GenesisConfig {
    /// Decides whether the configuration can be stored.
    ///
    /// Fails with `ValueOutOfRange` where a belief has an aggregate above
    /// `SCALE` or the largest `u64` as its id, or a submission has a value
    /// above `SCALE`.
    pub fn validated(&self) -> (r: Result<(), Error>)
        ensures
            r == validated_spec(self.beliefs@, self.submissions@),
    {
        match self.beliefs.validated() {
            Err(e) => Err(e),
            Ok(_) => self.submissions.validated(),
        }
    }
}

/// Genesis of the whole engine. A configuration with a belief or a
/// submission that is not admissible is refused with `ValueOutOfRange` and
/// changes nothing, in no part. Any other is stored: its agents, its beliefs
/// and its submissions, each in order.
pub open spec fn genesis_spec(
    state: State,
    agents: Seq<(Seq<u8>, crate::agent::Agent)>,
    beliefs: Seq<crate::belief::BeliefView>,
    submissions: Seq<crate::submission::SubmissionView>,
) -> (State, Result<(), Error>) {
    match validated_spec(beliefs, submissions) {
        Err(e) => (state, Err(e)),
        Ok(_) => (
            State {
                agents: crate::agent::genesis_spec(state.agents, agents),
                beliefs: crate::belief::supplied_spec(state.beliefs, beliefs),
                log: crate::submission::appended_spec(state.log, submissions),
            },
            Ok(()),
        ),
    }
}

/// The state after one call by `sender`, and what the caller is told.
pub open spec fn dispatch_spec(state: State, sender: Seq<u8>, call: RuntimeCall) -> (
    State,
    Result<(), Error>,
) {
    match call {
        RuntimeCall::Agent(msg) => {
            let after = crate::agent::call_spec(state.agents, sender, msg);
            (State { agents: after.0, beliefs: state.beliefs, log: state.log }, after.1)
        },
        RuntimeCall::Belief(msg) => (state, Ok(())),
        RuntimeCall::Submission(msg) => match msg {
            crate::submission::CallMessage::SubmitBelief { belief_id, value } => {
                let after = submit_spec(
                    state.agents,
                    state.beliefs,
                    state.log,
                    sender,
                    belief_id,
                    value,
                );
                (
                    State { agents: state.agents, beliefs: after.0, log: after.1 },
                    match after.2 {
                        Ok(receipt) => Ok(()),
                        Err(e) => Err(e),
                    },
                )
            },
        },
    }
}

/// The state after a sequence of transactions, each carried out on the state
/// that the one before left, and the number of them that succeeded.
pub open spec fn replay_spec(state: State, transactions: Seq<(Seq<u8>, RuntimeCall)>) -> (
    State,
    nat,
)
    decreases transactions.len(),
{
    if transactions.len() == 0 {
        (state, 0)
    } else {
        let before = replay_spec(state, transactions.drop_last());
        let after = dispatch_spec(before.0, transactions.last().0, transactions.last().1);
        (
            after.0,
            if after.1 is Ok {
                before.1 + 1
            } else {
                before.1
            },
        )
    }
}

/// The views of a sequence of transactions.
pub open spec fn views(transactions: Seq<Transaction>) -> Seq<(Seq<u8>, RuntimeCall)> {
    Seq::new(transactions.len(), |i: int| transactions[i]@)
}

/// The registry, the store and the log of one engine.
pub struct Veritas {
    pub agents: AgentRegistry,
    pub beliefs: BeliefStore,
    pub submissions: SubmissionOrchestrator,
}

impl View for Veritas {
    type V = State;

    open spec fn view(&self) -> State {
        State { agents: self.agents@, beliefs: self.beliefs@, log: self.submissions@ }
    }
}

impl Veritas {
    /// The registry, the store and the log are well formed.
    pub open spec fn wf(self) -> bool {
        self.agents.wf() && self.beliefs.wf() && self.submissions.wf()
    }

    /// An engine without agents, beliefs or submissions.
    pub fn new() -> (engine: Veritas)
        ensures
            engine.wf(),
            engine@.agents == Map::<Seq<u8>, crate::agent::Agent>::empty(),
            engine@.beliefs == BeliefStore::new_spec(),
            engine@.log == Seq::<crate::submission::SubmissionView>::empty(),
    {
        Veritas {
            agents: AgentRegistry::new(),
            beliefs: BeliefStore::new(),
            submissions: SubmissionOrchestrator::new(),
        }
    }

    /// Stores what a genesis configuration supplies: its agents, its beliefs
    /// and its submissions, each in order.
    ///
    /// Fails with `ValueOutOfRange`, and stores nothing in any part, where a
    /// supplied belief has an aggregate above `SCALE` or the largest `u64` as
    /// its id, or a supplied submission has a value above `SCALE`.
    pub fn genesis(&mut self, config: &GenesisConfig) -> (r: Result<(), Error>)
        requires
            old(self).wf(),
        ensures
            final(self).wf(),
            final(self)@.beliefs.valid(),
            (final(self)@, r) == genesis_spec(
                old(self)@,
                config.agents@,
                config.beliefs@,
                config.submissions@,
            ),
            old(self)@.beliefs.in_range() ==> final(self)@.beliefs.in_range(),
    {
        proof {
            self.beliefs.lemma_valid();
        }
        match config.validated() {
            Err(e) => Err(e),
            Ok(_) => {
                self.agents.genesis(&config.agents);
                self.beliefs.supply(&config.beliefs);
                self.submissions.append_all(&config.submissions);
                proof {
                    if old(self)@.beliefs.in_range() {
                        crate::belief::lemma_supplied_keeps_range(
                            old(self)@.beliefs,
                            config.beliefs@,
                        );
                    }
                }
                Ok(())
            },
        }
    }

    /// Carries out one call by `sender`. A call that fails changes nothing.
    pub fn dispatch_call(&mut self, call: RuntimeCall, sender: &Address) -> (r: Result<(), Error>)
        requires
            old(self).wf(),
        ensures
            final(self).wf(),
            (final(self)@, r) == dispatch_spec(old(self)@, sender@, call),
    {
        match call {
            RuntimeCall::Agent(msg) => self.agents.call(msg, sender),
            RuntimeCall::Belief(msg) => self.beliefs.call(msg),
            RuntimeCall::Submission(msg) => {
                match self.submissions.call(msg, sender, &self.agents, &mut self.beliefs) {
                    Ok(receipt) => Ok(()),
                    Err(e) => Err(e),
                }
            },
        }
    }

    /// Carries out the transactions in order and returns how many succeeded.
    pub fn replay(&mut self, transactions: &Vec<Transaction>) -> (accepted: usize)
        requires
            old(self).wf(),
        ensures
            final(self).wf(),
            (final(self)@, accepted as nat) == replay_spec(old(self)@, views(transactions@)),
    {
        let ghost all = views(transactions@);
        let mut accepted: usize = 0;
        let mut i: usize = 0;
        while i < transactions.len()
            invariant
                i <= transactions@.len(),
                all == views(transactions@),
                self.wf(),
                accepted <= i,
                (self@, accepted as nat) == replay_spec(old(self)@, all.take(i as int)),
            decreases transactions@.len() - i,
        {
            let transaction: &Transaction = &transactions[i];
            proof {
                let done = all.take(i + 1);
                assert(done.drop_last() =~= all.take(i as int));
                assert(done.last() == transaction@);
            }
            let outcome: Result<(), Error> = self.dispatch_call(
                transaction.call,
                &transaction.sender,
            );
            if outcome.is_ok() {
                accepted += 1;
            }
            i += 1;
        }
        assert(all.take(i as int) =~= all);
        accepted
    }
}

/// A call that fails leaves the whole state as it was.
pub proof fn lemma_failure_changes_nothing(state: State, sender: Seq<u8>, call: RuntimeCall)
    requires
        dispatch_spec(state, sender, call).1 is Err,
    ensures
        dispatch_spec(state, sender, call).0 == state,
{
}

/// What no call undoes: the log only grows at its end, agents stay with the
/// scores they had, and beliefs stay, with no belief added and the id counter
/// where it was.
pub open spec fn extends(before: State, after: State) -> bool {
    &&& before.log.len() <= after.log.len()
    &&& forall|i: int| 0 <= i < before.log.len() ==> after.log[i] == before.log[i]
    &&& forall|address: Seq<u8>| #[trigger]
        before.agents.dom().contains(address) ==> after.agents.dom().contains(address)
            && after.agents[address].score == before.agents[address].score
    &&& after.beliefs.beliefs.dom() == before.beliefs.beliefs.dom()
    &&& after.beliefs.next_belief_id == before.beliefs.next_belief_id
    &&& forall|id: u64| #[trigger]
        before.beliefs.beliefs.dom().contains(id) ==> after.beliefs.beliefs[id].total_weight
            >= before.beliefs.beliefs[id].total_weight && after.beliefs.beliefs[id].question
            == before.beliefs.beliefs[id].question
}

/// One call only ever extends the state, and keeps it valid.
pub proof fn lemma_dispatch_extends(state: State, sender: Seq<u8>, call: RuntimeCall)
    requires
        state.beliefs.valid(),
    ensures
        extends(state, dispatch_spec(state, sender, call).0),
        dispatch_spec(state, sender, call).0.beliefs.valid(),
{
    let after = dispatch_spec(state, sender, call).0;
    match call {
        RuntimeCall::Agent(msg) => {
            assert forall|address: Seq<u8>| #[trigger]
                state.agents.dom().contains(address) implies after.agents.dom().contains(address)
                && after.agents[address].score == state.agents[address].score by {
                crate::agent::lemma_calls_keep_agents_and_scores(
                    state.agents,
                    sender,
                    msg,
                    address,
                );
            }
        },
        RuntimeCall::Belief(msg) => {},
        RuntimeCall::Submission(msg) => {
            assert(after.beliefs.beliefs.dom() =~= state.beliefs.beliefs.dom());
            assert(after.beliefs.submission_counts.dom() =~= state.beliefs.submission_counts.dom());
        },
    }
}

/// A replay only ever extends the state: records on the log stay where they
/// are and as they are, no agent and no belief is lost, no score changes,
/// no accumulated weight goes down, and no id is handed out.
pub proof fn lemma_replay_extends(state: State, transactions: Seq<(Seq<u8>, RuntimeCall)>)
    requires
        state.beliefs.valid(),
    ensures
        extends(state, replay_spec(state, transactions).0),
        replay_spec(state, transactions).0.beliefs.valid(),
    decreases transactions.len(),
{
    if transactions.len() > 0 {
        lemma_replay_extends(state, transactions.drop_last());
        let before = replay_spec(state, transactions.drop_last()).0;
        lemma_dispatch_extends(before, transactions.last().0, transactions.last().1);
        let after = replay_spec(state, transactions).0;
        assert(after.beliefs.beliefs.dom() =~= state.beliefs.beliefs.dom());
    } else {
        assert(replay_spec(state, transactions).0 == state);
    }
}

/// A submission never touches the registry: the accuracy bonus is reported,
/// not added to any score.
pub proof fn lemma_submission_keeps_agents(
    state: State,
    sender: Seq<u8>,
    msg: crate::submission::CallMessage,
)
    ensures
        dispatch_spec(state, sender, RuntimeCall::Submission(msg)).0.agents == state.agents,
{
}

/// Genesis is deterministic: from equal states, equal configurations lead to
/// equal states and equal results. Two fresh engines that are given one
/// configuration are therefore the same initial state for any replay.
pub proof fn lemma_genesis_deterministic(
    first: State,
    second: State,
    agents: Seq<(Seq<u8>, crate::agent::Agent)>,
    beliefs: Seq<crate::belief::BeliefView>,
    submissions: Seq<crate::submission::SubmissionView>,
    transactions: Seq<(Seq<u8>, RuntimeCall)>,
)
    requires
        first == second,
    ensures
        genesis_spec(first, agents, beliefs, submissions) == genesis_spec(
            second,
            agents,
            beliefs,
            submissions,
        ),
        replay_spec(genesis_spec(first, agents, beliefs, submissions).0, transactions)
            == replay_spec(genesis_spec(second, agents, beliefs, submissions).0, transactions),
{
}

/// After genesis every stored aggregate is a probability: where every
/// aggregate of the state was at most `SCALE`, so is every one after genesis,
/// whether the configuration was stored or refused.
pub proof fn lemma_genesis_keeps_range(
    state: State,
    agents: Seq<(Seq<u8>, crate::agent::Agent)>,
    beliefs: Seq<crate::belief::BeliefView>,
    submissions: Seq<crate::submission::SubmissionView>,
)
    requires
        state.beliefs.in_range(),
    ensures
        genesis_spec(state, agents, beliefs, submissions).0.beliefs.in_range(),
{
    if crate::belief::all_admissible(beliefs) {
        crate::belief::lemma_supplied_keeps_range(state.beliefs, beliefs);
    }
}

/// Replay is deterministic: from equal states, equal sequences of
/// transactions lead to equal states and equal numbers of successes.
pub proof fn lemma_replay_deterministic(
    first: State,
    second: State,
    first_transactions: Seq<(Seq<u8>, RuntimeCall)>,
    second_transactions: Seq<(Seq<u8>, RuntimeCall)>,
)
    requires
        first == second,
        first_transactions =~= second_transactions,
    ensures
        replay_spec(first, first_transactions) == replay_spec(second, second_transactions),
{
}

/// Replaying two sequences one after the other is replaying their
/// concatenation: the state carries everything that the past matters for.
pub proof fn lemma_replay_concatenates(
    state: State,
    earlier: Seq<(Seq<u8>, RuntimeCall)>,
    later: Seq<(Seq<u8>, RuntimeCall)>,
)
    ensures
        replay_spec(state, earlier + later).0 == replay_spec(
            replay_spec(state, earlier).0,
            later,
        ).0,
        replay_spec(state, earlier + later).1 == replay_spec(state, earlier).1 + replay_spec(
            replay_spec(state, earlier).0,
            later,
        ).1,
    decreases later.len(),
{
    if later.len() == 0 {
        assert(earlier + later =~= earlier);
    } else {
        assert((earlier + later).drop_last() =~= earlier + later.drop_last());
        assert((earlier + later).last() == later.last());
        lemma_replay_concatenates(state, earlier, later.drop_last());
    }
}

} // verus!
