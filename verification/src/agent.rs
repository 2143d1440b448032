//! Agents and the registry that owns them.
//!
//! An agent is a stake and a reputation score under an address. The registry
//! admits each address once, moves stake in and out, and derives the voting
//! weight of an agent as stake times score.
use crate::assoc::{
    assoc, lemma_assoc_absent, lemma_assoc_at, lemma_assoc_push, lemma_assoc_update, lookup,
};
use crate::error::Error;
use crate::fixed::{saturating_weight, weight_spec};
use vstd::prelude::*;

verus! {

/// The score that every agent starts with.
pub const INITIAL_SCORE: u64 = 100;

/// The identity of a caller, as the host authenticated it: an opaque byte string.
#[derive(Debug)]
pub struct Address {
    pub bytes: Vec<u8>,
}

impl View for Address {
    type V = Seq<u8>;

    open spec fn view(&self) -> Seq<u8> {
        self.bytes@
    }
}

impl Clone for Address {
    fn clone(&self) -> (copy: Address)
        ensures
            copy@ == self@,
    {
        let mut bytes: Vec<u8> = Vec::new();
        let mut i: usize = 0;
        while i < self.bytes.len()
            invariant
                i <= self.bytes.len(),
                bytes@ == self.bytes@.take(i as int),
            decreases self.bytes.len() - i,
        {
            bytes.push(self.bytes[i]);
            assert(self.bytes@.take(i + 1) =~= self.bytes@.take(i as int).push(
                self.bytes@[i as int],
            ));
            i += 1;
        }
        assert(self.bytes@.take(i as int) =~= self.bytes@);
        Address { bytes }
    }
}

impl Address {
    /// The address made of the given bytes.
    pub fn new(bytes: Vec<u8>) -> (address: Address)
        ensures
            address@ == bytes@,
    {
        Address { bytes }
    }

    /// Whether two addresses are the same byte string.
    pub fn same_as(&self, other: &Address) -> (same: bool)
        ensures
            same == (self@ == other@),
    {
        if self.bytes.len() != other.bytes.len() {
            return false;
        }
        let mut i: usize = 0;
        while i < self.bytes.len()
            invariant
                i <= self.bytes.len(),
                self.bytes.len() == other.bytes.len(),
                forall|j: int| 0 <= j < i ==> self.bytes@[j] == other.bytes@[j],
            decreases self.bytes.len() - i,
        {
            if self.bytes[i] != other.bytes[i] {
                return false;
            }
            i += 1;
        }
        assert(self.bytes@ =~= other.bytes@);
        true
    }
}

/// A participant: the stake it has locked and the reputation it has earned.
#[derive(Clone, Copy, Debug, PartialEq, Eq, Structural)]
pub struct Agent {
    pub stake: u64,
    pub score: u64,
}

impl Agent {
    /// Registration: refused where an agent exists or the stake is zero.
    pub open spec fn registered_spec(existing: Option<Agent>, initial_stake: u64) -> Result<
        Agent,
        Error,
    > {
        if existing is Some {
            Err(Error::AlreadyRegistered)
        } else if initial_stake == 0 {
            Err(Error::InvalidStake)
        } else {
            Ok(Agent { stake: initial_stake, score: INITIAL_SCORE })
        }
    }

    /// Adding stake: the sum, clamped at the largest `u64`.
    pub open spec fn stake_added_spec(existing: Option<Agent>, amount: u64) -> Result<
        Agent,
        Error,
    > {
        match existing {
            None => Err(Error::NotRegistered),
            Some(agent) => Ok(
                Agent {
                    stake: if agent.stake + amount > u64::MAX {
                        u64::MAX
                    } else {
                        (agent.stake + amount) as u64
                    },
                    score: agent.score,
                },
            ),
        }
    }

    /// Withdrawing stake: refused where the agent holds less than the amount.
    pub open spec fn stake_withdrawn_spec(existing: Option<Agent>, amount: u64) -> Result<
        Agent,
        Error,
    > {
        match existing {
            None => Err(Error::NotRegistered),
            Some(agent) => if amount > agent.stake {
                Err(Error::InsufficientStake)
            } else {
                Ok(Agent { stake: (agent.stake - amount) as u64, score: agent.score })
            },
        }
    }

    /// Raising the score: the sum, clamped at the largest `u64`.
    pub open spec fn score_raised_spec(existing: Option<Agent>, delta: u64) -> Result<
        Agent,
        Error,
    > {
        match existing {
            None => Err(Error::NotRegistered),
            Some(agent) => Ok(
                Agent {
                    stake: agent.stake,
                    score: if agent.score + delta > u64::MAX {
                        u64::MAX
                    } else {
                        (agent.score + delta) as u64
                    },
                },
            ),
        }
    }

    /// The voting weight of whoever is registered.
    pub open spec fn weight_of_spec(existing: Option<Agent>) -> Result<u64, Error> {
        match existing {
            None => Err(Error::NotRegistered),
            Some(agent) => Ok(weight_spec(agent.stake, agent.score)),
        }
    }

    /// The agent's voting weight: stake times score, clamped at the largest `u64`.
    pub fn weight(&self) -> (w: u64)
        ensures
            w == weight_spec(self.stake, self.score),
    {
        saturating_weight(self.stake, self.score)
    }

    /// The record to store when an address asks to register, given what the
    /// address holds so far.
    pub fn registered(existing: Option<Agent>, initial_stake: u64) -> (r: Result<Agent, Error>)
        ensures
            r == Self::registered_spec(existing, initial_stake),
    {
        if existing.is_some() {
            Err(Error::AlreadyRegistered)
        } else if initial_stake == 0 {
            Err(Error::InvalidStake)
        } else {
            Ok(Agent { stake: initial_stake, score: INITIAL_SCORE })
        }
    }

    /// The record to store when an address adds stake.
    pub fn stake_added(existing: Option<Agent>, amount: u64) -> (r: Result<Agent, Error>)
        ensures
            r == Self::stake_added_spec(existing, amount),
    {
        match existing {
            None => Err(Error::NotRegistered),
            Some(agent) => Ok(
                Agent { stake: agent.stake.saturating_add(amount), score: agent.score },
            ),
        }
    }

    /// The record to store when an address withdraws stake.
    pub fn stake_withdrawn(existing: Option<Agent>, amount: u64) -> (r: Result<Agent, Error>)
        ensures
            r == Self::stake_withdrawn_spec(existing, amount),
    {
        match existing {
            None => Err(Error::NotRegistered),
            Some(agent) => {
                if amount > agent.stake {
                    Err(Error::InsufficientStake)
                } else {
                    Ok(Agent { stake: agent.stake - amount, score: agent.score })
                }
            },
        }
    }

    /// The record to store when an agent's score is raised.
    pub fn score_raised(existing: Option<Agent>, delta: u64) -> (r: Result<Agent, Error>)
        ensures
            r == Self::score_raised_spec(existing, delta),
    {
        match existing {
            None => Err(Error::NotRegistered),
            Some(agent) => Ok(
                Agent { stake: agent.stake, score: agent.score.saturating_add(delta) },
            ),
        }
    }

    /// The voting weight of whoever is registered under an address.
    pub fn weight_of(existing: Option<Agent>) -> (r: Result<u64, Error>)
        ensures
            r == Self::weight_of_spec(existing),
    {
        match existing {
            None => Err(Error::NotRegistered),
            Some(agent) => Ok(agent.weight()),
        }
    }
}

/// The calls that any address may make on the registry. Raising a score is
/// not among them: it is a method for the engine's own use.
#[derive(Clone, Copy, Debug, PartialEq, Eq, Structural)]
pub enum CallMessage {
    RegisterAgent { initial_stake: u64 },
    AddStake { amount: u64 },
    WithdrawStake { amount: u64 },
}

/// The agents that exist before the first call.
pub struct GenesisConfig {
    pub initial_agents: Vec<(Address, Agent)>,
}

impl View for GenesisConfig {
    type V = Seq<(Seq<u8>, Agent)>;

    open spec fn view(&self) -> Seq<(Seq<u8>, Agent)> {
        Seq::new(
            self.initial_agents@.len(),
            |i: int| (self.initial_agents@[i].0@, self.initial_agents@[i].1),
        )
    }
}

/// The registry's state: the agent under each registered address.
pub type Agents = Map<Seq<u8>, Agent>;

/// The state after an attempt to store a record under `address`, and what the
/// caller is told: a refusal changes nothing.
pub open spec fn settle(agents: Agents, address: Seq<u8>, outcome: Result<Agent, Error>) -> (
    Agents,
    Result<(), Error>,
) {
    match outcome {
        Ok(agent) => (agents.insert(address, agent), Ok(())),
        Err(e) => (agents, Err(e)),
    }
}

/// Registration of `sender` with `initial_stake`.
pub open spec fn register_spec(agents: Agents, sender: Seq<u8>, initial_stake: u64) -> (
    Agents,
    Result<(), Error>,
) {
    settle(agents, sender, Agent::registered_spec(lookup(agents, sender), initial_stake))
}

/// `sender` adds `amount` to its stake.
pub open spec fn add_stake_spec(agents: Agents, sender: Seq<u8>, amount: u64) -> (
    Agents,
    Result<(), Error>,
) {
    settle(agents, sender, Agent::stake_added_spec(lookup(agents, sender), amount))
}

/// `sender` takes `amount` out of its stake.
pub open spec fn withdraw_stake_spec(agents: Agents, sender: Seq<u8>, amount: u64) -> (
    Agents,
    Result<(), Error>,
) {
    settle(agents, sender, Agent::stake_withdrawn_spec(lookup(agents, sender), amount))
}

/// The score under `address` is raised by `delta`.
pub open spec fn update_score_spec(agents: Agents, address: Seq<u8>, delta: u64) -> (
    Agents,
    Result<(), Error>,
) {
    settle(agents, address, Agent::score_raised_spec(lookup(agents, address), delta))
}

/// One call by `sender`.
pub open spec fn call_spec(agents: Agents, sender: Seq<u8>, msg: CallMessage) -> (
    Agents,
    Result<(), Error>,
) {
    match msg {
        CallMessage::RegisterAgent { initial_stake } => register_spec(
            agents,
            sender,
            initial_stake,
        ),
        CallMessage::AddStake { amount } => add_stake_spec(agents, sender, amount),
        CallMessage::WithdrawStake { amount } => withdraw_stake_spec(agents, sender, amount),
    }
}

/// The state after the pairs of a genesis configuration were stored in order:
/// where an address occurs twice, the later pair stands.
pub open spec fn genesis_spec(agents: Agents, pairs: Seq<(Seq<u8>, Agent)>) -> Agents
    decreases pairs.len(),
{
    if pairs.len() == 0 {
        agents
    } else {
        genesis_spec(agents, pairs.drop_last()).insert(pairs.last().0, pairs.last().1)
    }
}

/// Owns the agents: at most one under each address.
pub struct AgentRegistry {
    addresses: Vec<Address>,
    agents: Vec<Agent>,
}

impl View for AgentRegistry {
    type V = Agents;

    closed spec fn view(&self) -> Agents {
        assoc(self.keys(), self.agents@)
    }
}

impl Default for AgentRegistry {
    fn default() -> (registry: AgentRegistry)
        ensures
            registry.wf(),
            registry@ == Map::<Seq<u8>, Agent>::empty(),
    {
        AgentRegistry::new()
    }
}

impl AgentRegistry {
    /// The registered addresses, in the order of their registration.
    spec fn keys(self) -> Seq<Seq<u8>> {
        Seq::new(self.addresses@.len(), |i: int| self.addresses@[i]@)
    }

    /// No address occurs twice, and each has its agent.
    pub closed spec fn wf(self) -> bool {
        &&& self.keys().no_duplicates()
        &&& self.addresses@.len() == self.agents@.len()
    }

    /// A registry without agents.
    pub fn new() -> (registry: AgentRegistry)
        ensures
            registry.wf(),
            registry@ == Map::<Seq<u8>, Agent>::empty(),
    {
        let registry = AgentRegistry { addresses: Vec::new(), agents: Vec::new() };
        assert(registry@ =~= Map::<Seq<u8>, Agent>::empty());
        registry
    }

    /// Where `address` stands among the registered addresses.
    fn find(&self, address: &Address) -> (slot: Option<usize>)
        requires
            self.wf(),
        ensures
            match slot {
                Some(i) => i < self.agents@.len() && self.keys()[i as int] == address@ && lookup(
                    self@,
                    address@,
                ) == Some(self.agents@[i as int]),
                None => lookup(self@, address@) == None::<Agent>,
            },
    {
        let mut i: usize = 0;
        while i < self.addresses.len()
            invariant
                self.wf(),
                i <= self.addresses@.len(),
                forall|j: int| 0 <= j < i ==> self.keys()[j] != address@,
            decreases self.addresses@.len() - i,
        {
            if self.addresses[i].same_as(address) {
                proof {
                    lemma_assoc_at(self.keys(), self.agents@, i as int);
                }
                return Some(i);
            }
            i += 1;
        }
        proof {
            lemma_assoc_absent(self.keys(), self.agents@, address@);
        }
        None
    }

    /// Stores `agent` under `address`, in the slot that `find` gave.
    fn store(&mut self, address: &Address, slot: Option<usize>, agent: Agent)
        requires
            old(self).wf(),
            match slot {
                Some(i) => i < old(self).agents@.len() && old(self).keys()[i as int] == address@,
                None => !old(self)@.dom().contains(address@),
            },
        ensures
            final(self).wf(),
            final(self)@ == old(self)@.insert(address@, agent),
    {
        match slot {
            Some(i) => {
                proof {
                    lemma_assoc_update(self.keys(), self.agents@, i as int, agent);
                }
                self.agents.set(i, agent);
            },
            None => {
                let ghost keys = self.keys();
                proof {
                    lemma_assoc_push(keys, self.agents@, address@, agent);
                }
                self.addresses.push(address.clone());
                self.agents.push(agent);
                assert(self.keys() =~= keys.push(address@));
            },
        }
    }

    /// Stores the outcome of a transition, if it is a record.
    fn conclude(
        &mut self,
        address: &Address,
        slot: Option<usize>,
        outcome: Result<Agent, Error>,
    ) -> (r: Result<(), Error>)
        requires
            old(self).wf(),
            match slot {
                Some(i) => i < old(self).agents@.len() && old(self).keys()[i as int] == address@,
                None => !old(self)@.dom().contains(address@),
            },
        ensures
            final(self).wf(),
            (final(self)@, r) == settle(old(self)@, address@, outcome),
    {
        match outcome {
            Ok(agent) => {
                self.store(address, slot, agent);
                Ok(())
            },
            Err(e) => Err(e),
        }
    }

    /// The agent in the slot that `find` gave for `address`.
    fn at(&self, address: &Address, slot: Option<usize>) -> (existing: Option<Agent>)
        requires
            self.wf(),
            match slot {
                Some(i) => i < self.agents@.len() && lookup(self@, address@) == Some(
                    self.agents@[i as int],
                ),
                None => lookup(self@, address@) == None::<Agent>,
            },
        ensures
            existing == lookup(self@, address@),
    {
        match slot {
            Some(i) => Some(self.agents[i]),
            None => None,
        }
    }

    /// The agent under `address`, if one is registered.
    pub fn get(&self, address: &Address) -> (existing: Option<Agent>)
        requires
            self.wf(),
        ensures
            existing == lookup(self@, address@),
    {
        let slot: Option<usize> = self.find(address);
        self.at(address, slot)
    }

    /// Stores the agents of a genesis configuration, in order.
    pub fn genesis(&mut self, config: &GenesisConfig)
        requires
            old(self).wf(),
        ensures
            final(self).wf(),
            final(self)@ == genesis_spec(old(self)@, config@),
    {
        let mut i: usize = 0;
        while i < config.initial_agents.len()
            invariant
                i <= config.initial_agents@.len(),
                self.wf(),
                self@ == genesis_spec(old(self)@, config@.take(i as int)),
            decreases config.initial_agents@.len() - i,
        {
            let address: &Address = &config.initial_agents[i].0;
            let agent: Agent = config.initial_agents[i].1;
            let slot: Option<usize> = self.find(address);
            self.store(address, slot, agent);
            proof {
                let done = config@.take(i + 1);
                assert(done.drop_last() =~= config@.take(i as int));
                assert(done.last() == (address@, agent));
            }
            i += 1;
        }
        assert(config@.take(i as int) =~= config@);
    }

    /// Admits `sender` as a new agent with `initial_stake` and the initial score.
    ///
    /// Fails with `AlreadyRegistered` where `sender` has an agent, else with
    /// `InvalidStake` where the stake is zero.
    pub fn register_agent(&mut self, initial_stake: u64, sender: &Address) -> (r: Result<(), Error>)
        requires
            old(self).wf(),
        ensures
            final(self).wf(),
            (final(self)@, r) == register_spec(old(self)@, sender@, initial_stake),
    {
        let slot: Option<usize> = self.find(sender);
        let existing: Option<Agent> = self.at(sender, slot);
        self.conclude(sender, slot, Agent::registered(existing, initial_stake))
    }

    /// Adds `amount` to the stake of `sender`, clamped at the largest `u64`.
    ///
    /// Fails with `NotRegistered` where `sender` has no agent.
    pub fn add_stake(&mut self, amount: u64, sender: &Address) -> (r: Result<(), Error>)
        requires
            old(self).wf(),
        ensures
            final(self).wf(),
            (final(self)@, r) == add_stake_spec(old(self)@, sender@, amount),
    {
        let slot: Option<usize> = self.find(sender);
        let existing: Option<Agent> = self.at(sender, slot);
        self.conclude(sender, slot, Agent::stake_added(existing, amount))
    }

    /// Takes `amount` out of the stake of `sender`.
    ///
    /// Fails with `NotRegistered` where `sender` has no agent, else with
    /// `InsufficientStake` where it holds less than `amount`.
    pub fn withdraw_stake(&mut self, amount: u64, sender: &Address) -> (r: Result<(), Error>)
        requires
            old(self).wf(),
        ensures
            final(self).wf(),
            (final(self)@, r) == withdraw_stake_spec(old(self)@, sender@, amount),
    {
        let slot: Option<usize> = self.find(sender);
        let existing: Option<Agent> = self.at(sender, slot);
        self.conclude(sender, slot, Agent::stake_withdrawn(existing, amount))
    }

    /// Raises the score under `address` by `delta`, clamped at the largest `u64`.
    ///
    /// Fails with `NotRegistered` where `address` has no agent. No call
    /// message reaches this method.
    pub fn update_score(&mut self, address: &Address, delta: u64) -> (r: Result<(), Error>)
        requires
            old(self).wf(),
        ensures
            final(self).wf(),
            (final(self)@, r) == update_score_spec(old(self)@, address@, delta),
    {
        let slot: Option<usize> = self.find(address);
        let existing: Option<Agent> = self.at(address, slot);
        self.conclude(address, slot, Agent::score_raised(existing, delta))
    }

    /// The voting weight of the agent under `address`: stake times score,
    /// clamped at the largest `u64`.
    ///
    /// Fails with `NotRegistered` where `address` has no agent.
    pub fn get_weight(&self, address: &Address) -> (r: Result<u64, Error>)
        requires
            self.wf(),
        ensures
            r == Agent::weight_of_spec(lookup(self@, address@)),
    {
        Agent::weight_of(self.get(address))
    }

    /// Carries out one call by `sender`.
    pub fn call(&mut self, msg: CallMessage, sender: &Address) -> (r: Result<(), Error>)
        requires
            old(self).wf(),
        ensures
            final(self).wf(),
            (final(self)@, r) == call_spec(old(self)@, sender@, msg),
    {
        match msg {
            CallMessage::RegisterAgent { initial_stake } => self.register_agent(
                initial_stake,
                sender,
            ),
            CallMessage::AddStake { amount } => self.add_stake(amount, sender),
            CallMessage::WithdrawStake { amount } => self.withdraw_stake(amount, sender),
        }
    }
}

/// Registration happens once: after `sender` has registered, every further
/// registration of `sender` fails with `AlreadyRegistered` and leaves every
/// agent, stake and score as it was.
pub proof fn lemma_register_exactly_once(
    agents: Agents,
    sender: Seq<u8>,
    first_stake: u64,
    second_stake: u64,
)
    requires
        register_spec(agents, sender, first_stake).1 is Ok,
    ensures
        register_spec(register_spec(agents, sender, first_stake).0, sender, second_stake) == (
            register_spec(agents, sender, first_stake).0,
            Err::<(), Error>(Error::AlreadyRegistered),
        ),
{
}

/// Whoever is registered cannot register again, whatever happened since.
pub proof fn lemma_register_refused_when_present(agents: Agents, sender: Seq<u8>, stake: u64)
    requires
        agents.dom().contains(sender),
    ensures
        register_spec(agents, sender, stake) == (
            agents,
            Err::<(), Error>(Error::AlreadyRegistered),
        ),
{
}

/// No call removes an agent or changes a score: an address that has an agent
/// keeps it, with the score it had, whoever calls and whatever the call.
pub proof fn lemma_calls_keep_agents_and_scores(
    agents: Agents,
    sender: Seq<u8>,
    msg: CallMessage,
    address: Seq<u8>,
)
    requires
        agents.dom().contains(address),
    ensures
        call_spec(agents, sender, msg).0.dom().contains(address),
        call_spec(agents, sender, msg).0[address].score == agents[address].score,
        address != sender ==> call_spec(agents, sender, msg).0[address] == agents[address],
{
}

/// A withdrawal never takes more than the stake: asking for more fails with
/// `InsufficientStake` and changes nothing, and a withdrawal that succeeds
/// leaves exactly the stake less the amount, which is not negative.
pub proof fn lemma_withdraw_within_stake(agents: Agents, sender: Seq<u8>, amount: u64)
    requires
        agents.dom().contains(sender),
    ensures
        amount > agents[sender].stake ==> withdraw_stake_spec(agents, sender, amount) == (
            agents,
            Err::<(), Error>(Error::InsufficientStake),
        ),
        amount <= agents[sender].stake ==> {
            let after = withdraw_stake_spec(agents, sender, amount);
            &&& after.1 is Ok
            &&& after.0.dom().contains(sender)
            &&& after.0[sender].stake == agents[sender].stake - amount
            &&& after.0[sender].stake >= 0
            &&& after.0[sender].score == agents[sender].score
        },
{
}

/// The weight of a registered agent is its stake times its score wherever the
/// product fits in 64 bits, and the largest `u64` wherever it does not.
pub proof fn lemma_weight_is_saturated_product(agent: Agent)
    ensures
        agent.stake * agent.score <= u64::MAX ==> Agent::weight_of_spec(Some(agent)) == Ok::<
            u64,
            Error,
        >((agent.stake * agent.score) as u64),
        agent.stake * agent.score > u64::MAX ==> Agent::weight_of_spec(Some(agent)) == Ok::<
            u64,
            Error,
        >(u64::MAX),
{
}

} // verus!
