//! Beliefs and the store that owns them.
//!
//! A belief is a question with a running consensus: the weighted mean of the
//! probabilities submitted so far, as a fixed-point integer out of `SCALE`.
use crate::assoc::{
    assoc, lemma_assoc_absent, lemma_assoc_at, lemma_assoc_push, lemma_assoc_update, lookup,
};
use crate::error::Error;
use crate::fixed::{blend, blend_spec, lemma_blend_in_range, total_weight_spec, SCALE};
use vstd::prelude::*;

verus! {

/// Identifies a belief.
pub type BeliefId = u64;

/// The id of the first belief of a store.
pub const FIRST_BELIEF_ID: u64 = 1;

/// A question and the consensus on it.
#[derive(Debug)]
pub struct Belief {
    pub id: BeliefId,
    pub question: String,
    /// The weighted mean of all submissions, out of `SCALE`.
    pub aggregate: u64,
    /// The sum of the weights of all submissions, clamped at the largest `u64`.
    pub total_weight: u64,
}

/// A belief as a mathematical value.
pub struct BeliefView {
    pub id: BeliefId,
    pub question: Seq<char>,
    pub aggregate: u64,
    pub total_weight: u64,
}

impl View for Belief {
    type V = BeliefView;

    open spec fn view(&self) -> BeliefView {
        BeliefView {
            id: self.id,
            question: self.question@,
            aggregate: self.aggregate,
            total_weight: self.total_weight,
        }
    }
}

impl Clone for Belief {
    fn clone(&self) -> (copy: Belief)
        ensures
            copy@ == self@,
    {
        Belief {
            id: self.id,
            question: self.question.clone(),
            aggregate: self.aggregate,
            total_weight: self.total_weight,
        }
    }
}

/// A belief together with the number of submissions it has received.
#[derive(Debug)]
pub struct BeliefState {
    pub id: BeliefId,
    pub question: String,
    pub aggregate: u64,
    pub total_weight: u64,
    pub submission_count: u64,
}

/// A belief state as a mathematical value.
pub struct BeliefStateView {
    pub belief: BeliefView,
    pub submission_count: u64,
}

impl View for BeliefState {
    type V = BeliefStateView;

    open spec fn view(&self) -> BeliefStateView {
        BeliefStateView {
            belief: BeliefView {
                id: self.id,
                question: self.question@,
                aggregate: self.aggregate,
                total_weight: self.total_weight,
            },
            submission_count: self.submission_count,
        }
    }
}

impl BeliefView {
    /// Whether a belief that is supplied from outside can be stored: its
    /// aggregate is a probability, and its id leaves the counter room above it.
    pub open spec fn admissible(self) -> bool {
        self.aggregate <= SCALE && self.id < u64::MAX
    }

    /// The belief after one more submission of `value` with `weight`.
    pub open spec fn absorb(self, value: u64, weight: u64) -> BeliefView {
        BeliefView {
            id: self.id,
            question: self.question,
            aggregate: blend_spec(self.aggregate, self.total_weight, value, weight),
            total_weight: total_weight_spec(self.total_weight, weight),
        }
    }

    /// The belief after a sequence of submissions, each a value and a weight.
    pub open spec fn absorb_all(self, submissions: Seq<(u64, u64)>) -> BeliefView
        decreases submissions.len(),
    {
        if submissions.len() == 0 {
            self
        } else {
            self.absorb_all(submissions.drop_last()).absorb(
                submissions.last().0,
                submissions.last().1,
            )
        }
    }
}

/// The sum of the weights of a sequence of submissions.
pub open spec fn weight_sum(submissions: Seq<(u64, u64)>) -> int
    decreases submissions.len(),
{
    if submissions.len() == 0 {
        0
    } else {
        weight_sum(submissions.drop_last()) + submissions.last().1
    }
}

impl Belief {
    /// A new belief: refused where the question is empty, else where the
    /// initial value is above `SCALE`.
    pub open spec fn opened_spec(id: BeliefId, question: Seq<char>, initial_value: u64) -> Result<
        BeliefView,
        Error,
    > {
        if question.len() == 0 {
            Err(Error::EmptyQuestion)
        } else if initial_value > SCALE {
            Err(Error::ValueOutOfRange)
        } else {
            Ok(BeliefView { id, question, aggregate: initial_value, total_weight: 0 })
        }
    }

    /// A submission on a belief: refused where there is no belief, else
    /// where the value is above `SCALE`.
    pub open spec fn absorbed_spec(existing: Option<BeliefView>, value: u64, weight: u64) -> Result<
        BeliefView,
        Error,
    > {
        match existing {
            None => Err(Error::NotFound),
            Some(belief) => if value > SCALE {
                Err(Error::ValueOutOfRange)
            } else {
                Ok(belief.absorb(value, weight))
            },
        }
    }

    /// A belief supplied from outside: refused where it is not admissible.
    pub open spec fn admitted_spec(belief: BeliefView) -> Result<(), Error> {
        if belief.admissible() {
            Ok(())
        } else {
            Err(Error::ValueOutOfRange)
        }
    }

    /// Decides whether this belief, supplied from outside, can be stored.
    ///
    /// Fails with `ValueOutOfRange` where its aggregate is above `SCALE` or
    /// its id is the largest `u64`, above which the counter has no room.
    pub fn admitted(&self) -> (r: Result<(), Error>)
        ensures
            r == Self::admitted_spec(self@),
    {
        if self.aggregate <= SCALE && self.id < u64::MAX {
            Ok(())
        } else {
            Err(Error::ValueOutOfRange)
        }
    }

    /// The record of a new belief with the given id, with no weight behind
    /// its initial value.
    pub fn opened(id: BeliefId, question: String, initial_value: u64) -> (r: Result<Belief, Error>)
        ensures
            match r {
                Ok(belief) => Self::opened_spec(id, question@, initial_value) == Ok::<
                    BeliefView,
                    Error,
                >(belief@),
                Err(e) => Self::opened_spec(id, question@, initial_value) == Err::<
                    BeliefView,
                    Error,
                >(e),
            },
    {
        if question.as_str().is_empty() {
            Err(Error::EmptyQuestion)
        } else if initial_value > SCALE {
            Err(Error::ValueOutOfRange)
        } else {
            Ok(Belief { id, question, aggregate: initial_value, total_weight: 0 })
        }
    }

    /// The record to store after a submission of `value` with `weight`, given
    /// the belief as it stands.
    ///
    /// The new aggregate is the weighted mean
    /// `(aggregate * total_weight + value * weight) / new_total_weight`,
    /// rounded down, or `value` itself where the new total weight is zero.
    pub fn absorbed(existing: Option<&Belief>, value: u64, weight: u64) -> (r: Result<
        Belief,
        Error,
    >)
        ensures
            match r {
                Ok(belief) => Self::absorbed_spec(view_of(existing), value, weight) == Ok::<
                    BeliefView,
                    Error,
                >(belief@),
                Err(e) => Self::absorbed_spec(view_of(existing), value, weight) == Err::<
                    BeliefView,
                    Error,
                >(e),
            },
    {
        match existing {
            None => Err(Error::NotFound),
            Some(belief) => {
                if value > SCALE {
                    Err(Error::ValueOutOfRange)
                } else {
                    let (aggregate, total_weight) = blend(
                        belief.aggregate,
                        belief.total_weight,
                        value,
                        weight,
                    );
                    Ok(
                        Belief {
                            id: belief.id,
                            question: belief.question.clone(),
                            aggregate,
                            total_weight,
                        },
                    )
                }
            },
        }
    }
}

/// The view of a belief that may be absent.
pub open spec fn view_of(existing: Option<&Belief>) -> Option<BeliefView> {
    match existing {
        None => None,
        Some(belief) => Some(belief@),
    }
}

/// The one call message of the store. Beliefs are created and updated by
/// the engine itself, so the message asks for nothing.
#[derive(Clone, Copy, Debug, PartialEq, Eq, Structural)]
pub enum CallMessage {
    NoOp,
}

/// The beliefs that exist before the first call.
pub struct GenesisConfig {
    pub initial_beliefs: Vec<Belief>,
}

impl View for GenesisConfig {
    type V = Seq<BeliefView>;

    open spec fn view(&self) -> Seq<BeliefView> {
        Seq::new(self.initial_beliefs@.len(), |i: int| self.initial_beliefs@[i]@)
    }
}

/// Whether every belief of a sequence is admissible.
pub open spec fn all_admissible(beliefs: Seq<BeliefView>) -> bool {
    forall|i: int| 0 <= i < beliefs.len() ==> (#[trigger] beliefs[i]).admissible()
}

/// A genesis configuration is refused as a whole where one of its beliefs
/// is not admissible.
pub open spec fn validated_spec(beliefs: Seq<BeliefView>) -> Result<(), Error> {
    if all_admissible(beliefs) {
        Ok(())
    } else {
        Err(Error::ValueOutOfRange)
    }
}

impl GenesisConfig {
    /// Decides whether the configuration can be stored.
    ///
    /// Fails with `ValueOutOfRange` where a belief has an aggregate above
    /// `SCALE` or the largest `u64` as its id.
    pub fn validated(&self) -> (r: Result<(), Error>)
        ensures
            r == validated_spec(self@),
    {
        let mut i: usize = 0;
        while i < self.initial_beliefs.len()
            invariant
                i <= self.initial_beliefs@.len(),
                self@.len() == self.initial_beliefs@.len(),
                forall|j: int| 0 <= j < i ==> (#[trigger] self@[j]).admissible(),
            decreases self.initial_beliefs@.len() - i,
        {
            let admitted: Result<(), Error> = self.initial_beliefs[i].admitted();
            assert(self.initial_beliefs@[i as int]@ == self@[i as int]);
            if admitted.is_err() {
                assert(!self@[i as int].admissible());
                return Err(Error::ValueOutOfRange);
            }
            i += 1;
        }
        Ok(())
    }
}

/// The store's state.
pub struct Beliefs {
    /// The belief under each id.
    pub beliefs: Map<BeliefId, BeliefView>,
    /// How many submissions each belief has received.
    pub submission_counts: Map<BeliefId, u64>,
    /// The id that the next new belief gets.
    pub next_belief_id: BeliefId,
}

impl Beliefs {
    /// Every belief stands under its own id and has a submission count, and
    /// the id counter is above every id in use.
    pub open spec fn valid(self) -> bool {
        &&& self.beliefs.dom() == self.submission_counts.dom()
        &&& forall|id: BeliefId| #[trigger]
            self.beliefs.dom().contains(id) ==> self.beliefs[id].id == id && id
                < self.next_belief_id
    }

    /// Every aggregate is a probability: at most `SCALE`.
    pub open spec fn in_range(self) -> bool {
        forall|id: BeliefId| #[trigger]
            self.beliefs.dom().contains(id) ==> self.beliefs[id].aggregate <= SCALE
    }

    /// The state with `belief` stored under its id beside `count`.
    pub open spec fn with(self, belief: BeliefView, count: u64) -> Beliefs {
        Beliefs {
            beliefs: self.beliefs.insert(belief.id, belief),
            submission_counts: self.submission_counts.insert(belief.id, count),
            next_belief_id: self.next_belief_id,
        }
    }
}

/// A submission count after one more submission, clamped at the largest `u64`.
pub open spec fn count_after(count: u64) -> u64 {
    if count == u64::MAX {
        u64::MAX
    } else {
        (count + 1) as u64
    }
}

/// The id counter after a belief with the given id was supplied from outside:
/// above that id, and never lower than it was.
pub open spec fn counter_after_spec(counter: BeliefId, id: BeliefId) -> BeliefId {
    if id >= counter {
        (id + 1) as u64
    } else {
        counter
    }
}

/// A submission count after one more submission, clamped at the largest `u64`.
pub fn next_count(count: u64) -> (next: u64)
    ensures
        next == count_after(count),
{
    count.saturating_add(1)
}

/// The id counter after a belief with the given id was supplied from outside.
/// The largest `u64` is no id: it leaves no room for the counter.
pub fn counter_after(counter: BeliefId, id: BeliefId) -> (next: BeliefId)
    requires
        id < u64::MAX,
    ensures
        next == counter_after_spec(counter, id),
        next > id,
        next >= counter,
{
    if id >= counter {
        id + 1
    } else {
        counter
    }
}

/// Creation of a belief: the new belief gets the id that the counter shows,
/// and the counter moves on by one.
pub open spec fn create_belief_spec(state: Beliefs, question: Seq<char>, initial_value: u64) -> (
    Beliefs,
    Result<BeliefId, Error>,
) {
    match Belief::opened_spec(state.next_belief_id, question, initial_value) {
        Err(e) => (state, Err(e)),
        Ok(belief) => (
            Beliefs {
                beliefs: state.beliefs.insert(belief.id, belief),
                submission_counts: state.submission_counts.insert(belief.id, 0),
                next_belief_id: (state.next_belief_id + 1) as u64,
            },
            Ok(belief.id),
        ),
    }
}

/// A submission of `value` with `weight` on the belief `belief_id`: the
/// belief absorbs it and its submission count goes up by one.
pub open spec fn update_aggregate_spec(
    state: Beliefs,
    belief_id: BeliefId,
    value: u64,
    weight: u64,
) -> (Beliefs, Result<u64, Error>) {
    match Belief::absorbed_spec(lookup(state.beliefs, belief_id), value, weight) {
        Err(e) => (state, Err(e)),
        Ok(belief) => (
            state.with(belief, count_after(state.submission_counts[belief_id])),
            Ok(belief.aggregate),
        ),
    }
}

/// Genesis: a configuration with a belief that is not admissible is refused
/// and changes nothing; any other is stored.
pub open spec fn genesis_spec(state: Beliefs, beliefs: Seq<BeliefView>) -> (
    Beliefs,
    Result<(), Error>,
) {
    match validated_spec(beliefs) {
        Err(e) => (state, Err(e)),
        Ok(_) => (supplied_spec(state, beliefs), Ok(())),
    }
}

/// The state after the beliefs of a genesis configuration were stored in
/// order, each with a submission count of zero: where an id occurs twice the
/// later belief stands, and the counter ends above every id supplied.
pub open spec fn supplied_spec(state: Beliefs, beliefs: Seq<BeliefView>) -> Beliefs
    decreases beliefs.len(),
{
    if beliefs.len() == 0 {
        state
    } else {
        let before = supplied_spec(state, beliefs.drop_last());
        let belief = beliefs.last();
        Beliefs {
            beliefs: before.beliefs.insert(belief.id, belief),
            submission_counts: before.submission_counts.insert(belief.id, 0),
            next_belief_id: counter_after_spec(before.next_belief_id, belief.id),
        }
    }
}

/// Owns the beliefs and the counter that numbers them.
pub struct BeliefStore {
    records: Vec<Belief>,
    counts: Vec<u64>,
    next_belief_id: u64,
}

impl View for BeliefStore {
    type V = Beliefs;

    closed spec fn view(&self) -> Beliefs {
        Beliefs {
            beliefs: assoc(self.keys(), self.vals()),
            submission_counts: assoc(self.keys(), self.counts@),
            next_belief_id: self.next_belief_id,
        }
    }
}

impl Default for BeliefStore {
    fn default() -> (store: BeliefStore)
        ensures
            store.wf(),
            store@.valid(),
            store@ == BeliefStore::new_spec(),
    {
        BeliefStore::new()
    }
}

impl BeliefStore {
    /// The ids of the stored beliefs, in the order of their creation.
    spec fn keys(self) -> Seq<BeliefId> {
        Seq::new(self.records@.len(), |i: int| self.records@[i].id)
    }

    /// The stored beliefs, in the order of their creation.
    spec fn vals(self) -> Seq<BeliefView> {
        Seq::new(self.records@.len(), |i: int| self.records@[i]@)
    }

    /// No id occurs twice, each belief has its count, and the counter is
    /// above every id.
    pub closed spec fn wf(self) -> bool {
        &&& self.keys().no_duplicates()
        &&& self.records@.len() == self.counts@.len()
        &&& forall|i: int|
            0 <= i < self.records@.len() ==> self.records@[i].id < self.next_belief_id
    }

    /// A well-formed store has a valid state.
    pub proof fn lemma_valid(self)
        requires
            self.wf(),
        ensures
            self@.valid(),
    {
        let keys = self.keys();
        assert(self@.beliefs.dom() =~= self@.submission_counts.dom());
        assert forall|id: BeliefId| #[trigger]
            self@.beliefs.dom().contains(id) implies self@.beliefs[id].id == id && id
            < self.next_belief_id by {
            let i = keys.index_of(id);
            assert(0 <= i < keys.len() && keys[i] == id);
            lemma_assoc_at(keys, self.vals(), i);
        }
    }

    /// The state of a store without beliefs.
    pub open spec fn new_spec() -> Beliefs {
        Beliefs {
            beliefs: Map::empty(),
            submission_counts: Map::empty(),
            next_belief_id: FIRST_BELIEF_ID,
        }
    }

    /// A store without beliefs, whose first belief will get `FIRST_BELIEF_ID`.
    pub fn new() -> (store: BeliefStore)
        ensures
            store.wf(),
            store@.valid(),
            store@ == Self::new_spec(),
    {
        let store = BeliefStore {
            records: Vec::new(),
            counts: Vec::new(),
            next_belief_id: FIRST_BELIEF_ID,
        };
        assert(store@.beliefs =~= Map::empty());
        assert(store@.submission_counts =~= Map::empty());
        proof {
            store.lemma_valid();
        }
        store
    }

    /// Where the belief `belief_id` stands among the stored beliefs.
    fn find(&self, belief_id: BeliefId) -> (slot: Option<usize>)
        requires
            self.wf(),
        ensures
            match slot {
                Some(i) => {
                    &&& i < self.records@.len()
                    &&& self.records@[i as int].id == belief_id
                    &&& lookup(self@.beliefs, belief_id) == Some(self.records@[i as int]@)
                    &&& self@.submission_counts[belief_id] == self.counts@[i as int]
                },
                None => !self.keys().contains(belief_id) && lookup(self@.beliefs, belief_id)
                    == None::<BeliefView>,
            },
    {
        let mut i: usize = 0;
        while i < self.records.len()
            invariant
                self.wf(),
                i <= self.records@.len(),
                forall|j: int| 0 <= j < i ==> self.keys()[j] != belief_id,
            decreases self.records@.len() - i,
        {
            if self.records[i].id == belief_id {
                proof {
                    lemma_assoc_at(self.keys(), self.vals(), i as int);
                    lemma_assoc_at(self.keys(), self.counts@, i as int);
                }
                return Some(i);
            }
            i += 1;
        }
        proof {
            lemma_assoc_absent(self.keys(), self.vals(), belief_id);
        }
        None
    }

    /// Stores `belief` beside `count`, in the slot that `find` gave for its id.
    fn store(&mut self, slot: Option<usize>, belief: Belief, count: u64)
        requires
            old(self).wf(),
            belief.id < old(self).next_belief_id,
            match slot {
                Some(i) => i < old(self).records@.len() && old(self).records@[i as int].id
                    == belief.id,
                None => !old(self).keys().contains(belief.id),
            },
        ensures
            final(self).wf(),
            final(self)@ == old(self)@.with(belief@, count),
    {
        let ghost keys = self.keys();
        let ghost vals = self.vals();
        let ghost counts = self.counts@;
        match slot {
            Some(i) => {
                proof {
                    lemma_assoc_update(keys, vals, i as int, belief@);
                    lemma_assoc_update(keys, counts, i as int, count);
                }
                self.records.set(i, belief);
                self.counts.set(i, count);
                assert(self.keys() =~= keys);
                assert(self.vals() =~= vals.update(i as int, belief@));
            },
            None => {
                proof {
                    lemma_assoc_push(keys, vals, belief.id, belief@);
                    lemma_assoc_push(keys, counts, belief.id, count);
                }
                let ghost id = belief.id;
                let ghost view = belief@;
                self.records.push(belief);
                self.counts.push(count);
                assert(self.keys() =~= keys.push(id));
                assert(self.vals() =~= vals.push(view));
            },
        }
    }

    /// The id that the next new belief gets.
    pub fn next_belief_id(&self) -> (id: BeliefId)
        ensures
            id == self@.next_belief_id,
    {
        self.next_belief_id
    }

    /// Stores the beliefs of a genesis configuration, in order, and moves the
    /// counter above every id supplied.
    ///
    /// Fails with `ValueOutOfRange`, and stores nothing, where a supplied
    /// belief has an aggregate above `SCALE` or the largest `u64` as its id.
    /// Every belief that genesis stores has an aggregate of at most `SCALE`.
    pub fn genesis(&mut self, config: &GenesisConfig) -> (r: Result<(), Error>)
        requires
            old(self).wf(),
        ensures
            final(self).wf(),
            final(self)@.valid(),
            (final(self)@, r) == genesis_spec(old(self)@, config@),
            r is Ok ==> forall|i: int|
                0 <= i < config@.len() ==> final(self)@.beliefs.dom().contains(
                    (#[trigger] config@[i]).id,
                ) && final(self)@.beliefs[config@[i].id].aggregate <= SCALE,
            old(self)@.in_range() ==> final(self)@.in_range(),
    {
        proof {
            self.lemma_valid();
        }
        match config.validated() {
            Err(e) => Err(e),
            Ok(_) => {
                self.supply(config);
                proof {
                    lemma_supplied_are_stored(old(self)@, config@);
                    if old(self)@.in_range() {
                        lemma_supplied_keeps_range(old(self)@, config@);
                    }
                }
                Ok(())
            },
        }
    }

    /// Stores the beliefs of an admissible configuration, in order.
    pub(crate) fn supply(&mut self, config: &GenesisConfig)
        requires
            old(self).wf(),
            all_admissible(config@),
        ensures
            final(self).wf(),
            final(self)@.valid(),
            final(self)@ == supplied_spec(old(self)@, config@),
    {
        let mut i: usize = 0;
        while i < config.initial_beliefs.len()
            invariant
                i <= config.initial_beliefs@.len(),
                config@.len() == config.initial_beliefs@.len(),
                all_admissible(config@),
                self.wf(),
                self@ == supplied_spec(old(self)@, config@.take(i as int)),
            decreases config.initial_beliefs@.len() - i,
        {
            let belief: Belief = config.initial_beliefs[i].clone();
            assert(belief@ == config@[i as int]);
            assert(config@[i as int].admissible());
            let slot: Option<usize> = self.find(belief.id);
            self.next_belief_id = counter_after(self.next_belief_id, belief.id);
            assert(self.wf());
            proof {
                let done = config@.take(i + 1);
                assert(done.drop_last() =~= config@.take(i as int));
                assert(done.last() == belief@);
            }
            self.store(slot, belief, 0);
            i += 1;
        }
        assert(config@.take(i as int) =~= config@);
        proof {
            self.lemma_valid();
        }
    }

    /// Creates a belief on `question` with `initial_value` as its aggregate
    /// and no weight behind it, and returns its id.
    ///
    /// Fails with `EmptyQuestion` where the question is empty, else with
    /// `ValueOutOfRange` where the initial value is above `SCALE`. The counter
    /// must have room to move on.
    pub fn create_belief(&mut self, question: String, initial_value: u64) -> (r: Result<
        BeliefId,
        Error,
    >)
        requires
            old(self).wf(),
            old(self)@.next_belief_id < u64::MAX,
        ensures
            final(self).wf(),
            final(self)@.valid(),
            (final(self)@, r) == create_belief_spec(old(self)@, question@, initial_value),
    {
        proof {
            self.lemma_valid();
        }
        let id: BeliefId = self.next_belief_id;
        match Belief::opened(id, question, initial_value) {
            Err(e) => Err(e),
            Ok(belief) => {
                let slot: Option<usize> = self.find(id);
                self.next_belief_id = id + 1;
                assert(self.wf());
                self.store(slot, belief, 0);
                proof {
                    self.lemma_valid();
                }
                Ok(id)
            },
        }
    }

    /// Folds a submission of `value` with `weight` into the belief
    /// `belief_id` and returns the new aggregate.
    ///
    /// Fails with `NotFound` where no belief has the id, else with
    /// `ValueOutOfRange` where the value is above `SCALE`.
    pub fn update_aggregate(&mut self, belief_id: BeliefId, value: u64, weight: u64) -> (r: Result<
        u64,
        Error,
    >)
        requires
            old(self).wf(),
        ensures
            final(self).wf(),
            final(self)@.valid(),
            (final(self)@, r) == update_aggregate_spec(old(self)@, belief_id, value, weight),
    {
        proof {
            self.lemma_valid();
        }
        let slot: Option<usize> = self.find(belief_id);
        let outcome: Result<Belief, Error> = match slot {
            Some(i) => Belief::absorbed(Some(&self.records[i]), value, weight),
            None => Belief::absorbed(None, value, weight),
        };
        match outcome {
            Err(e) => Err(e),
            Ok(belief) => {
                let i: usize = slot.unwrap();
                let count: u64 = next_count(self.counts[i]);
                let aggregate: u64 = belief.aggregate;
                self.store(slot, belief, count);
                proof {
                    self.lemma_valid();
                }
                Ok(aggregate)
            },
        }
    }

    /// The belief `belief_id` and its submission count.
    ///
    /// Fails with `NotFound` where no belief has the id.
    pub fn get_belief_state(&self, belief_id: BeliefId) -> (r: Result<BeliefState, Error>)
        requires
            self.wf(),
        ensures
            match r {
                Ok(state) => lookup(self@.beliefs, belief_id) == Some(state@.belief)
                    && state@.submission_count == self@.submission_counts[belief_id],
                Err(e) => e == Error::NotFound && lookup(self@.beliefs, belief_id) == None::<
                    BeliefView,
                >,
            },
    {
        match self.find(belief_id) {
            None => Err(Error::NotFound),
            Some(i) => {
                let belief: &Belief = &self.records[i];
                Ok(
                    BeliefState {
                        id: belief.id,
                        question: belief.question.clone(),
                        aggregate: belief.aggregate,
                        total_weight: belief.total_weight,
                        submission_count: self.counts[i],
                    },
                )
            },
        }
    }

    /// Carries out one call: the store's only message asks for nothing.
    pub fn call(&mut self, msg: CallMessage) -> (r: Result<(), Error>)
        ensures
            *final(self) == *old(self),
            r == Ok::<(), Error>(()),
    {
        match msg {
            CallMessage::NoOp => Ok(()),
        }
    }
}

/// Every belief of an admissible configuration is in the state after it was
/// supplied, under its id, with an aggregate of at most `SCALE`.
pub proof fn lemma_supplied_are_stored(state: Beliefs, beliefs: Seq<BeliefView>)
    requires
        all_admissible(beliefs),
    ensures
        forall|i: int|
            0 <= i < beliefs.len() ==> supplied_spec(state, beliefs).beliefs.dom().contains(
                (#[trigger] beliefs[i]).id,
            ) && supplied_spec(state, beliefs).beliefs[beliefs[i].id].aggregate <= SCALE,
    decreases beliefs.len(),
{
    if beliefs.len() > 0 {
        let earlier = beliefs.drop_last();
        assert forall|i: int| 0 <= i < earlier.len() implies (#[trigger] earlier[i]).admissible(
        ) by {
            assert(earlier[i] == beliefs[i]);
        }
        lemma_supplied_are_stored(state, earlier);
        let after = supplied_spec(state, beliefs);
        assert(beliefs.last().admissible());
        assert forall|i: int| 0 <= i < beliefs.len() implies after.beliefs.dom().contains(
            (#[trigger] beliefs[i]).id,
        ) && after.beliefs[beliefs[i].id].aggregate <= SCALE by {
            if i < earlier.len() {
                assert(earlier[i] == beliefs[i]);
            }
        }
    }
}

/// Genesis keeps aggregates in range: where every aggregate of the state is
/// at most `SCALE`, so is every aggregate after an admissible configuration
/// was supplied.
pub proof fn lemma_supplied_keeps_range(state: Beliefs, beliefs: Seq<BeliefView>)
    requires
        state.in_range(),
        all_admissible(beliefs),
    ensures
        supplied_spec(state, beliefs).in_range(),
    decreases beliefs.len(),
{
    if beliefs.len() > 0 {
        let earlier = beliefs.drop_last();
        assert forall|i: int| 0 <= i < earlier.len() implies (#[trigger] earlier[i]).admissible(
        ) by {
            assert(earlier[i] == beliefs[i]);
        }
        lemma_supplied_keeps_range(state, earlier);
        assert(beliefs.last().admissible());
    }
}

/// After genesis, whether it stored the configuration or refused it, every
/// aggregate is at most `SCALE` if every aggregate was before.
pub proof fn lemma_genesis_keeps_range(state: Beliefs, beliefs: Seq<BeliefView>)
    requires
        state.in_range(),
    ensures
        genesis_spec(state, beliefs).0.in_range(),
{
    if all_admissible(beliefs) {
        lemma_supplied_keeps_range(state, beliefs);
    }
}

/// Creating a belief keeps aggregates in range.
pub proof fn lemma_create_keeps_range(state: Beliefs, question: Seq<char>, initial_value: u64)
    requires
        state.in_range(),
    ensures
        create_belief_spec(state, question, initial_value).0.in_range(),
{
}

/// Ids are handed out in strictly increasing order and never twice: a new
/// belief gets an id that no belief has, and the counter ends above it.
pub proof fn lemma_create_allocates_fresh_id(
    state: Beliefs,
    question: Seq<char>,
    initial_value: u64,
)
    requires
        state.valid(),
        state.next_belief_id < u64::MAX,
        create_belief_spec(state, question, initial_value).1 is Ok,
    ensures
        create_belief_spec(state, question, initial_value).1 == Ok::<BeliefId, Error>(
            state.next_belief_id,
        ),
        !state.beliefs.dom().contains(state.next_belief_id),
        create_belief_spec(state, question, initial_value).0.next_belief_id > state.next_belief_id,
        create_belief_spec(state, question, initial_value).0.valid(),
{
    let after = create_belief_spec(state, question, initial_value).0;
    assert(after.beliefs.dom() =~= after.submission_counts.dom());
}

/// Of two beliefs created one after the other, the second has the greater id.
pub proof fn lemma_created_ids_increase(
    state: Beliefs,
    first_question: Seq<char>,
    first_value: u64,
    second_question: Seq<char>,
    second_value: u64,
)
    requires
        state.next_belief_id < u64::MAX - 1,
        create_belief_spec(state, first_question, first_value).1 is Ok,
        create_belief_spec(
            create_belief_spec(state, first_question, first_value).0,
            second_question,
            second_value,
        ).1 is Ok,
    ensures
        create_belief_spec(
            create_belief_spec(state, first_question, first_value).0,
            second_question,
            second_value,
        ).1->Ok_0 > create_belief_spec(state, first_question, first_value).1->Ok_0,
{
}

/// Submissions never move the id counter, so no id is handed out again
/// after them.
pub proof fn lemma_update_keeps_counter(
    state: Beliefs,
    belief_id: BeliefId,
    value: u64,
    weight: u64,
)
    ensures
        update_aggregate_spec(state, belief_id, value, weight).0.next_belief_id
            == state.next_belief_id,
        update_aggregate_spec(state, belief_id, value, weight).0.beliefs.dom().contains(belief_id)
            == state.beliefs.dom().contains(belief_id),
{
}

/// While the accumulated weight of a belief stays below the largest `u64`, a
/// submission with a value in `[0, SCALE]` on an aggregate in `[0, SCALE]`
/// returns and stores an aggregate in `[0, SCALE]`.
pub proof fn lemma_update_aggregate_in_range(
    state: Beliefs,
    belief_id: BeliefId,
    value: u64,
    weight: u64,
)
    requires
        state.beliefs.dom().contains(belief_id),
        state.beliefs[belief_id].id == belief_id,
        state.beliefs[belief_id].aggregate <= SCALE,
        state.beliefs[belief_id].total_weight + weight <= u64::MAX,
        value <= SCALE,
    ensures
        update_aggregate_spec(state, belief_id, value, weight).1 is Ok,
        0 <= update_aggregate_spec(state, belief_id, value, weight).1->Ok_0 <= SCALE,
        update_aggregate_spec(state, belief_id, value, weight).0.beliefs[belief_id].aggregate
            == update_aggregate_spec(state, belief_id, value, weight).1->Ok_0,
{
    let belief = state.beliefs[belief_id];
    lemma_blend_in_range(belief.aggregate, belief.total_weight, value, weight);
}

/// Beliefs are never deleted: whatever is created or submitted, a belief
/// that exists goes on existing, with its id and its question.
pub proof fn lemma_beliefs_are_never_deleted(
    state: Beliefs,
    belief_id: BeliefId,
    question: Seq<char>,
    initial_value: u64,
    target: BeliefId,
    value: u64,
    weight: u64,
)
    requires
        state.valid(),
        state.beliefs.dom().contains(belief_id),
    ensures
        create_belief_spec(state, question, initial_value).0.beliefs.dom().contains(belief_id),
        create_belief_spec(state, question, initial_value).0.beliefs[belief_id]
            == state.beliefs[belief_id],
        update_aggregate_spec(state, target, value, weight).0.beliefs.dom().contains(belief_id),
        update_aggregate_spec(state, target, value, weight).0.beliefs[belief_id].question
            == state.beliefs[belief_id].question,
        target != belief_id ==> update_aggregate_spec(
            state,
            target,
            value,
            weight,
        ).0.beliefs[belief_id] == state.beliefs[belief_id],
{
}

/// The accumulated weight of a belief never goes down.
pub proof fn lemma_total_weight_monotone(belief: BeliefView, value: u64, weight: u64)
    ensures
        belief.absorb(value, weight).total_weight >= belief.total_weight,
{
}

/// While the accumulated weight stays below the largest `u64`, a sequence of
/// submissions with values in `[0, SCALE]` keeps the aggregate in `[0, SCALE]`,
/// and the accumulated weight is the exact sum of the weights.
pub proof fn lemma_aggregate_stays_in_range(belief: BeliefView, submissions: Seq<(u64, u64)>)
    requires
        belief.aggregate <= SCALE,
        forall|i: int| 0 <= i < submissions.len() ==> (#[trigger] submissions[i]).0 <= SCALE,
        belief.total_weight + weight_sum(submissions) <= u64::MAX,
    ensures
        0 <= belief.absorb_all(submissions).aggregate <= SCALE,
        belief.absorb_all(submissions).total_weight == belief.total_weight + weight_sum(
            submissions,
        ),
    decreases submissions.len(),
{
    if submissions.len() > 0 {
        let earlier = submissions.drop_last();
        lemma_weight_sum_nonnegative(earlier);
        assert forall|i: int| 0 <= i < earlier.len() implies (#[trigger] earlier[i]).0 <= SCALE by {
            assert(earlier[i] == submissions[i]);
        }
        lemma_aggregate_stays_in_range(belief, earlier);
        let before = belief.absorb_all(earlier);
        lemma_blend_in_range(
            before.aggregate,
            before.total_weight,
            submissions.last().0,
            submissions.last().1,
        );
    }
}

/// A sum of weights is not negative.
pub proof fn lemma_weight_sum_nonnegative(submissions: Seq<(u64, u64)>)
    ensures
        weight_sum(submissions) >= 0,
    decreases submissions.len(),
{
    if submissions.len() > 0 {
        lemma_weight_sum_nonnegative(submissions.drop_last());
    }
}

} // verus!
