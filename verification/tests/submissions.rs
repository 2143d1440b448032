use veritas::agent::{Address, Agent, AgentRegistry};
use veritas::belief::BeliefStore;
use veritas::engine::{RuntimeCall, Transaction, Veritas};
use veritas::error::Error;
use veritas::submission::{
    score_delta, CallMessage, GenesisConfig, Receipt, Submission, SubmissionOrchestrator,
};
use veritas::zkvm::{rollup_host_args, skips_guest_build};

fn addr(name: &str) -> Address {
    Address::new(name.as_bytes().to_vec())
}

fn setup() -> (AgentRegistry, BeliefStore, SubmissionOrchestrator) {
    let mut agents = AgentRegistry::new();
    agents.register_agent(10, &addr("alice")).unwrap();
    agents.register_agent(30, &addr("bob")).unwrap();
    let mut beliefs = BeliefStore::new();
    beliefs.create_belief("q1".to_string(), 5000).unwrap();
    beliefs.create_belief("q2".to_string(), 2500).unwrap();
    (agents, beliefs, SubmissionOrchestrator::new())
}

fn snapshot(beliefs: &BeliefStore, id: u64) -> (u64, u64, u64) {
    let state = beliefs.get_belief_state(id).unwrap();
    (state.aggregate, state.total_weight, state.submission_count)
}

#[test]
fn submit_updates_belief_and_appends_record() {
    let (agents, mut beliefs, mut log) = setup();
    let receipt = log
        .submit_belief(1, 8000, &addr("alice"), &agents, &mut beliefs)
        .unwrap();
    assert_eq!(
        receipt,
        Receipt {
            new_aggregate: 8000,
            weight: 1000,
            score_delta: 100,
            sequence: 0
        }
    );
    assert_eq!(snapshot(&beliefs, 1), (8000, 1000, 1));
    let receipt = log
        .submit_belief(1, 0, &addr("bob"), &agents, &mut beliefs)
        .unwrap();
    assert_eq!(
        receipt,
        Receipt {
            new_aggregate: 2000,
            weight: 3000,
            score_delta: 83,
            sequence: 1
        }
    );
    assert_eq!(snapshot(&beliefs, 1), (2000, 4000, 2));
    assert_eq!(log.len(), 2);
    let all = log.get_all_submissions();
    assert_eq!(all.len(), 2);
    assert_eq!(all[0].agent.bytes, b"alice".to_vec());
    assert_eq!(
        (all[0].belief_id, all[0].value, all[0].weight, all[0].sequence),
        (1, 8000, 1000, 0)
    );
    assert_eq!(all[1].agent.bytes, b"bob".to_vec());
    assert_eq!(
        (all[1].belief_id, all[1].value, all[1].weight, all[1].sequence),
        (1, 0, 3000, 1)
    );
}

#[test]
fn submit_leaves_scores_as_they_were() {
    let (agents, mut beliefs, mut log) = setup();
    log.submit_belief(1, 8000, &addr("alice"), &agents, &mut beliefs)
        .unwrap();
    assert_eq!(
        agents.get(&addr("alice")),
        Some(Agent { stake: 10, score: 100 })
    );
    assert_eq!(agents.get_weight(&addr("alice")), Ok(1000));
}

#[test]
fn submit_by_unregistered_caller_fails_and_changes_nothing() {
    let (agents, mut beliefs, mut log) = setup();
    log.submit_belief(1, 8000, &addr("alice"), &agents, &mut beliefs)
        .unwrap();
    let result = log.submit_belief(1, 100, &addr("mallory"), &agents, &mut beliefs);
    assert_eq!(result, Err(Error::NotRegistered));
    assert_eq!(log.len(), 1);
    assert_eq!(snapshot(&beliefs, 1), (8000, 1000, 1));
    assert_eq!(snapshot(&beliefs, 2), (2500, 0, 0));
    assert_eq!(agents.get(&addr("mallory")), None);
}

#[test]
fn submit_with_zero_weight_fails_and_changes_nothing() {
    let (mut agents, mut beliefs, mut log) = setup();
    agents.withdraw_stake(10, &addr("alice")).unwrap();
    let result = log.submit_belief(1, 100, &addr("alice"), &agents, &mut beliefs);
    assert_eq!(result, Err(Error::ZeroWeight));
    assert_eq!(log.len(), 0);
    assert_eq!(snapshot(&beliefs, 1), (5000, 0, 0));
    assert_eq!(
        agents.get(&addr("alice")),
        Some(Agent { stake: 0, score: 100 })
    );
}

#[test]
fn submit_with_value_out_of_range_fails_first() {
    let (agents, mut beliefs, mut log) = setup();
    assert_eq!(
        log.submit_belief(1, 10001, &addr("alice"), &agents, &mut beliefs),
        Err(Error::ValueOutOfRange)
    );
    assert_eq!(
        log.submit_belief(1, 10001, &addr("mallory"), &agents, &mut beliefs),
        Err(Error::ValueOutOfRange)
    );
    assert_eq!(
        log.submit_belief(99, 10001, &addr("alice"), &agents, &mut beliefs),
        Err(Error::ValueOutOfRange)
    );
    assert_eq!(log.len(), 0);
    assert_eq!(snapshot(&beliefs, 1), (5000, 0, 0));
}

#[test]
fn submit_on_unknown_belief_fails_and_changes_nothing() {
    let (agents, mut beliefs, mut log) = setup();
    assert_eq!(
        log.submit_belief(3, 100, &addr("alice"), &agents, &mut beliefs),
        Err(Error::NotFound)
    );
    assert_eq!(
        log.submit_belief(3, 100, &addr("mallory"), &agents, &mut beliefs),
        Err(Error::NotRegistered)
    );
    assert_eq!(log.len(), 0);
    assert_eq!(beliefs.next_belief_id(), 3);
    assert_eq!(snapshot(&beliefs, 1), (5000, 0, 0));
    assert_eq!(snapshot(&beliefs, 2), (2500, 0, 0));
}

#[test]
fn log_grows_by_one_on_success_only() {
    let (agents, mut beliefs, mut log) = setup();
    let attempts: Vec<(u64, u64, &str, bool)> = vec![
        (1, 100, "alice", true),
        (1, 10001, "alice", false),
        (2, 100, "bob", true),
        (9, 100, "bob", false),
        (2, 100, "carol", false),
        (2, 10000, "alice", true),
    ];
    for (belief_id, value, who, expected) in attempts {
        let before = log.len();
        let result = log.submit_belief(belief_id, value, &addr(who), &agents, &mut beliefs);
        assert_eq!(result.is_ok(), expected);
        let grown = if expected { 1 } else { 0 };
        assert_eq!(log.len(), before + grown);
    }
    assert_eq!(log.len(), 3);
}

#[test]
fn get_submissions_filters_by_belief() {
    let (agents, mut beliefs, mut log) = setup();
    log.submit_belief(1, 100, &addr("alice"), &agents, &mut beliefs)
        .unwrap();
    log.submit_belief(2, 200, &addr("bob"), &agents, &mut beliefs)
        .unwrap();
    log.submit_belief(1, 300, &addr("bob"), &agents, &mut beliefs)
        .unwrap();
    let on_first = log.get_submissions(1);
    assert_eq!(on_first.len(), 2);
    assert_eq!((on_first[0].value, on_first[0].sequence), (100, 0));
    assert_eq!((on_first[1].value, on_first[1].sequence), (300, 2));
    assert_eq!(on_first[1].agent.bytes, b"bob".to_vec());
    let on_second = log.get_submissions(2);
    assert_eq!(on_second.len(), 1);
    assert_eq!((on_second[0].value, on_second[0].sequence), (200, 1));
    assert_eq!(log.get_submissions(3).len(), 0);
    let copy = on_second[0].clone();
    assert_eq!((copy.belief_id, copy.weight), (2, 3000));
}

#[test]
fn orchestrator_call_submits() {
    let (agents, mut beliefs, mut log) = setup();
    let receipt = log
        .call(
            CallMessage::SubmitBelief {
                belief_id: 2,
                value: 7500,
            },
            &addr("bob"),
            &agents,
            &mut beliefs,
        )
        .unwrap();
    assert_eq!(receipt.new_aggregate, 7500);
    assert_eq!(receipt.weight, 3000);
    assert_eq!(log.len(), 1);
}

#[test]
fn genesis_numbers_records_by_position() {
    let (agents, mut beliefs, mut log) = setup();
    log.submit_belief(1, 100, &addr("alice"), &agents, &mut beliefs)
        .unwrap();
    let config = GenesisConfig {
        initial_submissions: vec![
            Submission {
                agent: addr("old"),
                belief_id: 5,
                value: 1,
                weight: 2,
                sequence: 40,
            },
            Submission {
                agent: addr("older"),
                belief_id: 6,
                value: 3,
                weight: 4,
                sequence: 0,
            },
        ],
    };
    assert_eq!(log.genesis(&config), Ok(()));
    let all = log.get_all_submissions();
    assert_eq!(all.len(), 3);
    assert_eq!((all[1].belief_id, all[1].value, all[1].weight), (5, 1, 2));
    assert_eq!(all[1].agent.bytes, b"old".to_vec());
    assert_eq!(all[1].sequence, 1);
    assert_eq!(all[2].sequence, 2);
}

#[test]
fn score_delta_falls_with_distance() {
    assert_eq!(score_delta(5000, 5000), 100);
    assert_eq!(score_delta(5000, 4999), 99);
    assert_eq!(score_delta(0, 10000), 50);
    assert_eq!(score_delta(10000, 0), 50);
    assert_eq!(score_delta(0, 20000), 33);
    let mut last = 100;
    for d in 0..=10000u64 {
        let bonus = score_delta(d, 0);
        assert!(bonus <= last);
        last = bonus;
    }
}

fn transactions() -> Vec<Transaction> {
    let submit = |who: &str, belief_id: u64, value: u64| Transaction {
        sender: addr(who),
        call: RuntimeCall::Submission(CallMessage::SubmitBelief { belief_id, value }),
    };
    let agent = |who: &str, msg: veritas::agent::CallMessage| Transaction {
        sender: addr(who),
        call: RuntimeCall::Agent(msg),
    };
    vec![
        agent(
            "alice",
            veritas::agent::CallMessage::RegisterAgent { initial_stake: 5 },
        ),
        agent(
            "alice",
            veritas::agent::CallMessage::RegisterAgent { initial_stake: 6 },
        ),
        agent(
            "bob",
            veritas::agent::CallMessage::RegisterAgent { initial_stake: 0 },
        ),
        agent(
            "bob",
            veritas::agent::CallMessage::RegisterAgent { initial_stake: 9 },
        ),
        submit("alice", 1, 9000),
        submit("bob", 1, 1000),
        submit("carol", 1, 1000),
        agent("bob", veritas::agent::CallMessage::AddStake { amount: 1 }),
        agent(
            "alice",
            veritas::agent::CallMessage::WithdrawStake { amount: 50 },
        ),
        agent(
            "alice",
            veritas::agent::CallMessage::WithdrawStake { amount: 5 },
        ),
        submit("alice", 1, 1),
        submit("bob", 2, 10000),
        submit("bob", 1, 10001),
        Transaction {
            sender: addr("anyone"),
            call: RuntimeCall::Belief(veritas::belief::CallMessage::NoOp),
        },
    ]
}

fn fresh_engine() -> Veritas {
    let mut engine = Veritas::new();
    engine
        .beliefs
        .create_belief("will it rain?".to_string(), 5000)
        .unwrap();
    engine
}

#[test]
fn replay_counts_successes_and_reaches_expected_state() {
    let mut engine = fresh_engine();
    let accepted = engine.replay(&transactions());
    assert_eq!(accepted, 7);
    assert_eq!(
        engine.agents.get(&addr("alice")),
        Some(Agent { stake: 0, score: 100 })
    );
    assert_eq!(
        engine.agents.get(&addr("bob")),
        Some(Agent { stake: 10, score: 100 })
    );
    assert_eq!(engine.agents.get(&addr("carol")), None);
    assert_eq!(snapshot(&engine.beliefs, 1), (3857, 1400, 2));
    assert_eq!(engine.submissions.len(), 2);
}

#[test]
fn replay_on_two_engines_gives_the_same_state() {
    let mut first = fresh_engine();
    let mut second = fresh_engine();
    let txs = transactions();
    let accepted_first = first.replay(&txs);
    let mut accepted_second = 0;
    for tx in &txs {
        if second.dispatch_call(tx.call, &tx.sender).is_ok() {
            accepted_second += 1;
        }
    }
    assert_eq!(accepted_first, accepted_second);
    for who in ["alice", "bob", "carol", "anyone"] {
        assert_eq!(first.agents.get(&addr(who)), second.agents.get(&addr(who)));
    }
    assert_eq!(snapshot(&first.beliefs, 1), snapshot(&second.beliefs, 1));
    assert_eq!(
        first.beliefs.next_belief_id(),
        second.beliefs.next_belief_id()
    );
    let a = first.submissions.get_all_submissions();
    let b = second.submissions.get_all_submissions();
    assert_eq!(a.len(), b.len());
    for (x, y) in a.iter().zip(b.iter()) {
        assert_eq!(x.agent.bytes, y.agent.bytes);
        assert_eq!(
            (x.belief_id, x.value, x.weight, x.sequence),
            (y.belief_id, y.value, y.weight, y.sequence)
        );
    }
}

#[test]
fn failed_dispatch_changes_nothing() {
    let mut engine = fresh_engine();
    engine.replay(&transactions());
    let before = snapshot(&engine.beliefs, 1);
    let result = engine.dispatch_call(
        RuntimeCall::Submission(CallMessage::SubmitBelief {
            belief_id: 1,
            value: 5000,
        }),
        &addr("alice"),
    );
    assert_eq!(result, Err(Error::ZeroWeight));
    assert_eq!(snapshot(&engine.beliefs, 1), before);
    assert_eq!(engine.submissions.len(), 2);
}

#[test]
fn engine_genesis_fills_all_three_parts() {
    let mut engine = Veritas::new();
    let config = veritas::engine::GenesisConfig {
        agents: veritas::agent::GenesisConfig {
            initial_agents: vec![(addr("alice"), Agent { stake: 4, score: 25 })],
        },
        beliefs: veritas::belief::GenesisConfig {
            initial_beliefs: vec![veritas::belief::Belief {
                id: 41,
                question: "q".to_string(),
                aggregate: 5000,
                total_weight: 100,
            }],
        },
        submissions: GenesisConfig {
            initial_submissions: vec![],
        },
    };
    assert_eq!(engine.genesis(&config), Ok(()));
    assert_eq!(engine.beliefs.next_belief_id(), 42);
    let result = engine.dispatch_call(
        RuntimeCall::Submission(CallMessage::SubmitBelief {
            belief_id: 41,
            value: 10000,
        }),
        &addr("alice"),
    );
    assert_eq!(result, Ok(()));
    assert_eq!(snapshot(&engine.beliefs, 41), (7500, 200, 1));
}

#[test]
fn default_stores_are_empty() {
    let agents = AgentRegistry::default();
    let mut beliefs = BeliefStore::default();
    let mut log = SubmissionOrchestrator::default();
    assert_eq!(agents.get(&addr("alice")), None);
    assert_eq!(beliefs.next_belief_id(), 1);
    assert_eq!(log.len(), 0);
    assert_eq!(
        log.submit_belief(1, 5, &addr("alice"), &agents, &mut beliefs),
        Err(Error::NotRegistered)
    );
    assert_eq!(log.get_all_submissions().len(), 0);
}

#[test]
fn mock_backend_takes_no_host_arguments() {
    let args = rollup_host_args();
    assert_eq!(*args, ());
}

#[test]
fn settlement_from_records() {
    let belief = veritas::belief::Belief {
        id: 3,
        question: "q".to_string(),
        aggregate: 5000,
        total_weight: 1000,
    };
    let agent = Some(Agent { stake: 10, score: 100 });
    let settlement =
        veritas::submission::settled(agent, Some(&belief), 4, &addr("alice"), 3, 10000, 17)
            .unwrap();
    assert_eq!(settlement.belief.id, 3);
    assert_eq!(settlement.belief.question, "q");
    assert_eq!(
        (settlement.belief.aggregate, settlement.belief.total_weight),
        (7500, 2000)
    );
    assert_eq!(settlement.submission_count, 5);
    assert_eq!(settlement.submission.agent.bytes, b"alice".to_vec());
    assert_eq!(
        (
            settlement.submission.belief_id,
            settlement.submission.value,
            settlement.submission.weight,
            settlement.submission.sequence
        ),
        (3, 10000, 1000, 17)
    );
    assert_eq!(
        settlement.receipt,
        Receipt {
            new_aggregate: 7500,
            weight: 1000,
            score_delta: 80,
            sequence: 17
        }
    );
}

#[test]
fn settlement_refusals_in_order() {
    let belief = veritas::belief::Belief {
        id: 3,
        question: "q".to_string(),
        aggregate: 5000,
        total_weight: 1000,
    };
    let agent = Some(Agent { stake: 10, score: 100 });
    let idle = Some(Agent { stake: 10, score: 0 });
    let who = addr("alice");
    let refused = |agent: Option<Agent>, belief: Option<&veritas::belief::Belief>, value: u64| {
        veritas::submission::settled(agent, belief, 0, &who, 3, value, 0)
            .err()
            .unwrap()
    };
    assert_eq!(refused(None, None, 10001), Error::ValueOutOfRange);
    assert_eq!(refused(agent, Some(&belief), 10001), Error::ValueOutOfRange);
    assert_eq!(refused(None, None, 5), Error::NotRegistered);
    assert_eq!(refused(None, Some(&belief), 5), Error::NotRegistered);
    assert_eq!(refused(idle, None, 5), Error::ZeroWeight);
    assert_eq!(refused(idle, Some(&belief), 5), Error::ZeroWeight);
    assert_eq!(refused(agent, None, 5), Error::NotFound);
}

#[test]
fn at_position_renumbers_a_copy() {
    let record = Submission {
        agent: addr("a"),
        belief_id: 9,
        value: 8,
        weight: 7,
        sequence: 6,
    };
    let moved = record.at_position(40);
    assert_eq!(moved.agent.bytes, b"a".to_vec());
    assert_eq!(
        (moved.belief_id, moved.value, moved.weight, moved.sequence),
        (9, 8, 7, 40)
    );
    assert_eq!(record.sequence, 6);
}

#[test]
fn select_on_belief_keeps_order() {
    let record = |belief_id: u64, sequence: u64| Submission {
        agent: addr("a"),
        belief_id,
        value: sequence * 10,
        weight: 1,
        sequence,
    };
    let records = vec![record(1, 0), record(2, 1), record(1, 2), record(3, 3), record(1, 4)];
    let found = veritas::submission::select_on_belief(&records, 1);
    let sequences: Vec<u64> = found.iter().map(|s| s.sequence).collect();
    assert_eq!(sequences, vec![0, 2, 4]);
    assert_eq!(veritas::submission::select_on_belief(&records, 4).len(), 0);
    assert_eq!(veritas::submission::select_on_belief(&Vec::new(), 1).len(), 0);
}

fn record(who: &str, belief_id: u64, value: u64) -> Submission {
    Submission {
        agent: addr(who),
        belief_id,
        value,
        weight: 3,
        sequence: 0,
    }
}

#[test]
fn log_genesis_refuses_value_out_of_range() {
    let (agents, mut beliefs, mut log) = setup();
    log.submit_belief(1, 100, &addr("alice"), &agents, &mut beliefs)
        .unwrap();
    let config = GenesisConfig {
        initial_submissions: vec![record("a", 1, 10000), record("b", 1, 10001)],
    };
    assert_eq!(config.validated(), Err(Error::ValueOutOfRange));
    assert_eq!(log.genesis(&config), Err(Error::ValueOutOfRange));
    assert_eq!(log.len(), 1);
    assert_eq!(record("a", 1, 10000).admitted(), Ok(()));
    assert_eq!(
        record("a", 1, 10001).admitted(),
        Err(Error::ValueOutOfRange)
    );
    let config = GenesisConfig {
        initial_submissions: vec![record("a", 1, 10000), record("b", 1, 0)],
    };
    assert_eq!(config.validated(), Ok(()));
    assert_eq!(log.genesis(&config), Ok(()));
    assert_eq!(log.len(), 3);
    let all = log.get_all_submissions();
    assert_eq!((all[1].value, all[1].sequence), (10000, 1));
    assert_eq!((all[2].value, all[2].sequence), (0, 2));
}

fn engine_config(aggregate: u64, value: u64) -> veritas::engine::GenesisConfig {
    veritas::engine::GenesisConfig {
        agents: veritas::agent::GenesisConfig {
            initial_agents: vec![(addr("alice"), Agent { stake: 4, score: 25 })],
        },
        beliefs: veritas::belief::GenesisConfig {
            initial_beliefs: vec![veritas::belief::Belief {
                id: 41,
                question: "q".to_string(),
                aggregate,
                total_weight: 100,
            }],
        },
        submissions: GenesisConfig {
            initial_submissions: vec![record("old", 41, value)],
        },
    }
}

#[test]
fn engine_genesis_refuses_a_bad_configuration_as_a_whole() {
    for (aggregate, value) in [(10001, 5), (5000, 10001), (10001, 10001)] {
        let mut engine = Veritas::new();
        assert_eq!(
            engine.genesis(&engine_config(aggregate, value)),
            Err(Error::ValueOutOfRange)
        );
        assert_eq!(engine.agents.get(&addr("alice")), None);
        assert_eq!(engine.beliefs.next_belief_id(), 1);
        assert!(matches!(
            engine.beliefs.get_belief_state(41),
            Err(Error::NotFound)
        ));
        assert_eq!(engine.submissions.len(), 0);
    }
}

#[test]
fn engine_genesis_gives_two_engines_the_same_state() {
    let mut first = Veritas::new();
    let mut second = Veritas::new();
    assert_eq!(first.genesis(&engine_config(10000, 10000)), Ok(()));
    assert_eq!(second.genesis(&engine_config(10000, 10000)), Ok(()));
    let txs = vec![
        Transaction {
            sender: addr("alice"),
            call: RuntimeCall::Submission(CallMessage::SubmitBelief {
                belief_id: 41,
                value: 0,
            }),
        },
        Transaction {
            sender: addr("bob"),
            call: RuntimeCall::Agent(veritas::agent::CallMessage::RegisterAgent {
                initial_stake: 1,
            }),
        },
    ];
    assert_eq!(first.replay(&txs), 2);
    assert_eq!(second.replay(&txs), 2);
    assert_eq!(snapshot(&first.beliefs, 41), (5000, 200, 1));
    assert_eq!(snapshot(&first.beliefs, 41), snapshot(&second.beliefs, 41));
    assert_eq!(
        first.beliefs.next_belief_id(),
        second.beliefs.next_belief_id()
    );
    for who in ["alice", "bob"] {
        assert_eq!(first.agents.get(&addr(who)), second.agents.get(&addr(who)));
    }
    let a = first.submissions.get_all_submissions();
    let b = second.submissions.get_all_submissions();
    assert_eq!(a.len(), 2);
    assert_eq!(b.len(), 2);
    for (x, y) in a.iter().zip(b.iter()) {
        assert_eq!(x.agent.bytes, y.agent.bytes);
        assert_eq!(
            (x.belief_id, x.value, x.weight, x.sequence),
            (y.belief_id, y.value, y.weight, y.sequence)
        );
    }
}

#[test]
fn guest_build_is_skipped_on_request_only() {
    assert!(skips_guest_build(Some("1"), "risc0"));
    assert!(skips_guest_build(Some("true"), "risc0"));
    assert!(skips_guest_build(Some("risc0"), "risc0"));
    assert!(skips_guest_build(Some("sp1"), "sp1"));
    assert!(!skips_guest_build(Some("sp1"), "risc0"));
    assert!(!skips_guest_build(Some("risc0"), "sp1"));
    assert!(!skips_guest_build(Some("0"), "risc0"));
    assert!(!skips_guest_build(Some("false"), "risc0"));
    assert!(!skips_guest_build(Some(""), "risc0"));
    assert!(!skips_guest_build(Some("TRUE"), "risc0"));
    assert!(!skips_guest_build(None, "risc0"));
}
