use epoch_settlement::governance::{
    execute_governance_proposals, CodeOutcome, GovError, GovState, PowerEpoch, ProposalEvent,
    ProposalField, StoredProposal, WriteOp, GOVERNANCE_ADDRESS, TREASURY_ADDRESS,
};
use epoch_settlement::ledger::{Account, Ledger};
use epoch_settlement::tally::{TallyResult, ValidatorPower};

const AUTHOR: u64 = 9;
const START_EPOCH: u64 = 3;
const ESCROW_START: u64 = 1000;

fn proposal(id: u64, funds: u64, code: Option<CodeOutcome>, yea: Vec<u64>) -> StoredProposal {
    StoredProposal {
        id,
        funds: Some(funds),
        start_epoch: Some(START_EPOCH),
        author: Some(AUTHOR),
        code,
        yea_votes: yea,
    }
}

/// Three validators of power 10 each; two accepting votes pass a proposal.
fn base_state(proposals: Vec<StoredProposal>, pending: Vec<u64>) -> GovState {
    GovState {
        pending_proposals: pending,
        proposals,
        power_epochs: vec![PowerEpoch {
            epoch: START_EPOCH,
            validators: vec![
                ValidatorPower { addr: 101, power: 10 },
                ValidatorPower { addr: 102, power: 10 },
                ValidatorPower { addr: 103, power: 10 },
            ],
        }],
        ledger: Ledger {
            accounts: vec![
                Account { addr: GOVERNANCE_ADDRESS, balance: ESCROW_START },
                Account { addr: TREASURY_ADDRESS, balance: 0 },
            ],
        },
        committed_writes: Vec::new(),
        pending_execution: None,
    }
}

fn total_supply_of(state: &GovState) -> u128 {
    let mut sum: u128 = 0;
    for a in &state.ledger.accounts {
        sum += a.balance as u128;
    }
    sum
}

#[test]
fn test_not_epoch_boundary_is_noop() {
    let mut state = base_state(vec![proposal(1, 50, None, vec![101, 102])], vec![1]);
    let mut events: Vec<ProposalEvent> = Vec::new();
    let pr = match execute_governance_proposals(&mut state, false, &mut events) {
        Ok(pr) => pr,
        Err(_) => panic!("mid-epoch call must not fail"),
    };
    assert!(pr.passed.is_empty());
    assert!(pr.rejected.is_empty());
    assert!(events.is_empty());
    assert_eq!(state.pending_proposals, vec![1]);
    assert_eq!(state.ledger.balance(GOVERNANCE_ADDRESS), ESCROW_START);
}

#[test]
fn test_rejected_tally_funds_to_treasury() {
    // one accepting vote out of three: 3*10 < 2*30
    let mut state = base_state(vec![proposal(1, 50, None, vec![101])], vec![1]);
    let mut events: Vec<ProposalEvent> = Vec::new();
    let pr = match execute_governance_proposals(&mut state, true, &mut events) {
        Ok(pr) => pr,
        Err(_) => panic!("settlement failed"),
    };
    assert!(pr.passed.is_empty());
    assert_eq!(pr.rejected, vec![1]);
    assert_eq!(
        events,
        vec![ProposalEvent {
            tally: TallyResult::Rejected,
            proposal_id: 1,
            has_code: false,
            code_accepted: false,
        }]
    );
    assert_eq!(state.ledger.balance(TREASURY_ADDRESS), 50);
    assert_eq!(state.ledger.balance(GOVERNANCE_ADDRESS), ESCROW_START - 50);
    assert!(state.committed_writes.is_empty());
}

#[test]
fn test_unknown_tally_treated_as_rejected() {
    // the proposal's start epoch has no recorded snapshot
    let mut state = base_state(vec![proposal(1, 50, None, vec![101, 102])], vec![1]);
    state.power_epochs = Vec::new();
    let mut events: Vec<ProposalEvent> = Vec::new();
    let pr = match execute_governance_proposals(&mut state, true, &mut events) {
        Ok(pr) => pr,
        Err(_) => panic!("settlement failed"),
    };
    assert_eq!(pr.rejected, vec![1]);
    assert_eq!(events[0].tally, TallyResult::Rejected);
    assert_eq!(state.ledger.balance(TREASURY_ADDRESS), 50);
}

#[test]
fn test_passed_no_code_funds_to_author() {
    let mut state = base_state(vec![proposal(1, 70, None, vec![101, 102])], vec![1]);
    let mut events: Vec<ProposalEvent> = Vec::new();
    let pr = match execute_governance_proposals(&mut state, true, &mut events) {
        Ok(pr) => pr,
        Err(_) => panic!("settlement failed"),
    };
    assert_eq!(pr.passed, vec![1]);
    assert!(pr.rejected.is_empty());
    assert_eq!(
        events,
        vec![ProposalEvent {
            tally: TallyResult::Passed,
            proposal_id: 1,
            has_code: false,
            code_accepted: false,
        }]
    );
    assert_eq!(state.ledger.balance(AUTHOR), 70);
    assert_eq!(state.ledger.balance(GOVERNANCE_ADDRESS), ESCROW_START - 70);
    assert!(state.committed_writes.is_empty());
}

#[test]
fn test_passed_code_accepted_commits_writes() {
    let writes = vec![WriteOp { key: 11, value: 1 }, WriteOp { key: 12, value: 2 }];
    let mut state = base_state(
        vec![proposal(1, 70, Some(CodeOutcome::Accepted(writes.clone())), vec![101, 102])],
        vec![1],
    );
    let mut events: Vec<ProposalEvent> = Vec::new();
    let pr = match execute_governance_proposals(&mut state, true, &mut events) {
        Ok(pr) => pr,
        Err(_) => panic!("settlement failed"),
    };
    assert_eq!(pr.passed, vec![1]);
    assert_eq!(
        events,
        vec![ProposalEvent {
            tally: TallyResult::Passed,
            proposal_id: 1,
            has_code: true,
            code_accepted: true,
        }]
    );
    assert_eq!(state.committed_writes, writes);
    assert_eq!(state.ledger.balance(AUTHOR), 70);
    assert!(state.pending_execution.is_none());
}

#[test]
fn test_passed_code_rejected_discards_writes() {
    let writes = vec![WriteOp { key: 11, value: 1 }];
    let mut state = base_state(
        vec![proposal(1, 70, Some(CodeOutcome::Rejected(writes)), vec![101, 102])],
        vec![1],
    );
    let mut events: Vec<ProposalEvent> = Vec::new();
    let pr = match execute_governance_proposals(&mut state, true, &mut events) {
        Ok(pr) => pr,
        Err(_) => panic!("settlement failed"),
    };
    assert!(pr.passed.is_empty());
    assert_eq!(pr.rejected, vec![1]);
    assert_eq!(
        events,
        vec![ProposalEvent {
            tally: TallyResult::Passed,
            proposal_id: 1,
            has_code: true,
            code_accepted: false,
        }]
    );
    assert!(state.committed_writes.is_empty());
    assert_eq!(state.ledger.balance(TREASURY_ADDRESS), 70);
    assert_eq!(state.ledger.balance(AUTHOR), 0);
}

#[test]
fn test_passed_code_error_funds_to_treasury() {
    let mut state = base_state(
        vec![proposal(1, 70, Some(CodeOutcome::Error), vec![101, 102])],
        vec![1],
    );
    let mut events: Vec<ProposalEvent> = Vec::new();
    let pr = match execute_governance_proposals(&mut state, true, &mut events) {
        Ok(pr) => pr,
        Err(_) => panic!("settlement failed"),
    };
    assert_eq!(pr.rejected, vec![1]);
    assert_eq!(events[0].has_code, true);
    assert_eq!(events[0].code_accepted, false);
    assert_eq!(state.ledger.balance(TREASURY_ADDRESS), 70);
}

#[test]
fn test_second_call_in_same_block_sees_drained_set() {
    let mut state = base_state(
        vec![
            proposal(1, 50, None, vec![101]),
            proposal(2, 60, None, vec![101, 102]),
        ],
        vec![1, 2],
    );
    let mut events: Vec<ProposalEvent> = Vec::new();
    let first = match execute_governance_proposals(&mut state, true, &mut events) {
        Ok(pr) => pr,
        Err(_) => panic!("settlement failed"),
    };
    assert_eq!(first.rejected, vec![1]);
    assert_eq!(first.passed, vec![2]);
    assert!(state.pending_proposals.is_empty());

    let balances_after_first: Vec<u64> =
        state.ledger.accounts.iter().map(|a| a.balance).collect();
    let second = match execute_governance_proposals(&mut state, true, &mut events) {
        Ok(pr) => pr,
        Err(_) => panic!("second pass failed"),
    };
    assert!(second.passed.is_empty());
    assert!(second.rejected.is_empty());
    assert_eq!(events.len(), 2);
    let balances_after_second: Vec<u64> =
        state.ledger.accounts.iter().map(|a| a.balance).collect();
    assert_eq!(balances_after_first, balances_after_second);
}

#[test]
fn test_total_supply_conserved_across_mixed_outcomes() {
    let mut state = base_state(
        vec![
            proposal(1, 50, None, vec![101]),
            proposal(2, 60, None, vec![101, 102]),
            proposal(3, 70, Some(CodeOutcome::Error), vec![101, 102, 103]),
            proposal(4, 80, Some(CodeOutcome::Accepted(vec![WriteOp { key: 1, value: 1 }])), vec![101, 102]),
        ],
        vec![1, 2, 3, 4],
    );
    let before = total_supply_of(&state);
    let mut events: Vec<ProposalEvent> = Vec::new();
    let pr = match execute_governance_proposals(&mut state, true, &mut events) {
        Ok(pr) => pr,
        Err(_) => panic!("settlement failed"),
    };
    assert_eq!(total_supply_of(&state), before);
    // every transfer moved exactly the stored funds
    assert_eq!(state.ledger.balance(TREASURY_ADDRESS), 50 + 70);
    assert_eq!(state.ledger.balance(AUTHOR), 60 + 80);
    assert_eq!(
        state.ledger.balance(GOVERNANCE_ADDRESS),
        ESCROW_START - 50 - 60 - 70 - 80
    );
    assert_eq!(pr.passed, vec![2, 4]);
    assert_eq!(pr.rejected, vec![1, 3]);
}

#[test]
fn test_missing_funds_aborts_the_pass() {
    let mut broken = proposal(2, 60, None, vec![101, 102]);
    broken.funds = None;
    let mut state = base_state(vec![proposal(1, 50, None, vec![101]), broken], vec![1, 2]);
    let mut events: Vec<ProposalEvent> = Vec::new();
    let err = match execute_governance_proposals(&mut state, true, &mut events) {
        Ok(_) => panic!("a malformed proposal must abort the pass"),
        Err(e) => e,
    };
    assert_eq!(err, GovError::BadProposal(2, ProposalField::Funds));
    // the earlier proposal's effects stand, and the set is still drained
    assert_eq!(events.len(), 1);
    assert_eq!(state.ledger.balance(TREASURY_ADDRESS), 50);
    assert!(state.pending_proposals.is_empty());
}

#[test]
fn test_missing_start_epoch_aborts_the_pass() {
    let mut broken = proposal(1, 50, None, vec![101]);
    broken.start_epoch = None;
    let mut state = base_state(vec![broken], vec![1]);
    let mut events: Vec<ProposalEvent> = Vec::new();
    let err = match execute_governance_proposals(&mut state, true, &mut events) {
        Ok(_) => panic!("a malformed proposal must abort the pass"),
        Err(e) => e,
    };
    assert_eq!(err, GovError::BadProposal(1, ProposalField::StartEpoch));
}

#[test]
fn test_missing_author_aborts_a_passed_proposal() {
    let mut broken = proposal(1, 50, None, vec![101, 102]);
    broken.author = None;
    let mut state = base_state(vec![broken], vec![1]);
    let mut events: Vec<ProposalEvent> = Vec::new();
    let err = match execute_governance_proposals(&mut state, true, &mut events) {
        Ok(_) => panic!("a malformed proposal must abort the pass"),
        Err(e) => e,
    };
    assert_eq!(err, GovError::BadProposal(1, ProposalField::Author));
}

#[test]
fn test_unlisted_proposal_aborts_the_pass() {
    let mut state = base_state(vec![], vec![1]);
    let mut events: Vec<ProposalEvent> = Vec::new();
    let err = match execute_governance_proposals(&mut state, true, &mut events) {
        Ok(_) => panic!("an unlisted pending id must abort the pass"),
        Err(e) => e,
    };
    assert_eq!(err, GovError::BadProposal(1, ProposalField::Funds));
}
