//! Proposal execution coordinator: once per closed epoch it drains the
//! pending-proposal set and, for each proposal, tallies the vote, runs the
//! optional code payload's verdict through the state machine, settles the
//! escrowed funds, and emits one event.

use vstd::prelude::*;

use crate::ledger::{
    spec_balance, spec_transfer, total_supply, Ledger,
};
use crate::tally::{compute_tally, spec_tally, TallyResult, ValidatorPower};

verus! {

/// Address of the governance escrow account that holds proposal funds.
pub const GOVERNANCE_ADDRESS: u64 = 0;

/// Address of the treasury account that receives funds of failed proposals.
pub const TREASURY_ADDRESS: u64 = 1;

/// Which required proposal field was missing or malformed in storage.
#[derive(Clone, Copy, PartialEq, Eq, Structural, Debug)]
pub enum ProposalField {
    Funds,
    StartEpoch,
    Author,
}

/// Settlement failure: a required proposal field could not be read. This is
/// storage-corruption-level severity and aborts the whole pass.
#[derive(Clone, Copy, PartialEq, Eq, Structural, Debug)]
pub enum GovError {
    BadProposal(u64, ProposalField),
}

/// One storage mutation staged by a proposal's code payload.
#[derive(Clone, Copy, PartialEq, Eq, Structural, Debug)]
pub struct WriteOp {
    pub key: u64,
    pub value: u64,
}

/// The verdict the external virtual machine returns for a code payload run
/// against current storage: accepted with its staged writes, rejected by its
/// own acceptance predicate (staged writes are discarded), or a runtime
/// error (nothing to keep).
pub enum CodeOutcome {
    Accepted(Vec<WriteOp>),
    Rejected(Vec<WriteOp>),
    Error,
}

/// A proposal as it sits in storage. Each required field is optional here
/// because storage may be missing or malformed; a missing field is an
/// unrecoverable inconsistency at settlement time.
pub struct StoredProposal {
    pub id: u64,
    pub funds: Option<u64>,
    pub start_epoch: Option<u64>,
    pub author: Option<u64>,
    /// The optional code payload, represented by the verdict its execution
    /// yields; `None` means a signaling-only proposal.
    pub code: Option<CodeOutcome>,
    /// Validators that voted to accept, in the order the votes were stored.
    pub yea_votes: Vec<u64>,
}

/// The consensus voting-power snapshot taken at one epoch.
pub struct PowerEpoch {
    pub epoch: u64,
    pub validators: Vec<ValidatorPower>,
}

/// The block-processing context the coordinator settles against.
pub struct GovState {
    /// Ids accumulated during the closing epoch, drained by one pass.
    pub pending_proposals: Vec<u64>,
    /// Proposal storage, read-only during settlement.
    pub proposals: Vec<StoredProposal>,
    /// Voting-power snapshots, indexed by epoch.
    pub power_epochs: Vec<PowerEpoch>,
    /// Token accounts, including the governance escrow and the treasury.
    pub ledger: Ledger,
    /// The main write-log: staged writes of accepted code payloads.
    pub committed_writes: Vec<WriteOp>,
    /// Scoped in-flight marker: set while a code payload runs, always
    /// cleared again before the coordinator returns.
    pub pending_execution: Option<u64>,
}

/// Event emitted for every processed proposal.
#[derive(Clone, Copy, PartialEq, Eq, Structural, Debug)]
pub struct ProposalEvent {
    pub tally: TallyResult,
    pub proposal_id: u64,
    pub has_code: bool,
    pub code_accepted: bool,
}

/// Output aggregate of one settlement pass: proposal ids bucketed by how
/// they settled, in drain order.
pub struct ProposalsResult {
    pub passed: Vec<u64>,
    pub rejected: Vec<u64>,
}

/// Index of the first stored proposal with `id`, or -1.
pub open spec fn find_proposal(s: Seq<StoredProposal>, id: u64) -> int
    decreases s.len(),
{
    if s.len() == 0 {
        -1
    } else if s[0].id == id {
        0
    } else {
        let r = find_proposal(s.drop_first(), id);
        if r < 0 {
            -1
        } else {
            r + 1
        }
    }
}

pub proof fn lemma_find_proposal_char(s: Seq<StoredProposal>, id: u64)
    ensures
        ({
            let r = find_proposal(s, id);
            &&& r == -1 || r >= 0
            &&& r == -1 ==> forall|j: int| 0 <= j < s.len() ==> s[j].id != id
            &&& r >= 0 ==> 0 <= r < s.len() && s[r].id == id && (forall|j: int|
                0 <= j < r ==> s[j].id != id)
        }),
    decreases s.len(),
{
    if s.len() > 0 && s[0].id != id {
        lemma_find_proposal_char(s.drop_first(), id);
        let rt = find_proposal(s.drop_first(), id);
        if rt == -1 {
            assert forall|j: int| 0 <= j < s.len() implies s[j].id != id by {
                if j > 0 {
                    assert(s.drop_first()[j - 1] == s[j]);
                }
            }
        } else {
            assert(s.drop_first()[rt] == s[rt + 1]);
            assert forall|j: int| 0 <= j < rt + 1 implies s[j].id != id by {
                if j > 0 {
                    assert(s.drop_first()[j - 1] == s[j]);
                }
            }
        }
    }
}

/// Index of the first snapshot taken at `epoch`, or -1.
pub open spec fn find_epoch(s: Seq<PowerEpoch>, epoch: u64) -> int
    decreases s.len(),
{
    if s.len() == 0 {
        -1
    } else if s[0].epoch == epoch {
        0
    } else {
        let r = find_epoch(s.drop_first(), epoch);
        if r < 0 {
            -1
        } else {
            r + 1
        }
    }
}

pub proof fn lemma_find_epoch_char(s: Seq<PowerEpoch>, epoch: u64)
    ensures
        ({
            let r = find_epoch(s, epoch);
            &&& r == -1 || r >= 0
            &&& r == -1 ==> forall|j: int| 0 <= j < s.len() ==> s[j].epoch != epoch
            &&& r >= 0 ==> 0 <= r < s.len() && s[r].epoch == epoch && (forall|j: int|
                0 <= j < r ==> s[j].epoch != epoch)
        }),
    decreases s.len(),
{
    if s.len() > 0 && s[0].epoch != epoch {
        lemma_find_epoch_char(s.drop_first(), epoch);
        let rt = find_epoch(s.drop_first(), epoch);
        if rt == -1 {
            assert forall|j: int| 0 <= j < s.len() implies s[j].epoch != epoch by {
                if j > 0 {
                    assert(s.drop_first()[j - 1] == s[j]);
                }
            }
        } else {
            assert(s.drop_first()[rt] == s[rt + 1]);
            assert forall|j: int| 0 <= j < rt + 1 implies s[j].epoch != epoch by {
                if j > 0 {
                    assert(s.drop_first()[j - 1] == s[j]);
                }
            }
        }
    }
}

/// Voting-power snapshot as of `epoch`; empty when none was recorded, which
/// tallies to `Unknown`.
pub open spec fn powers_at(s: Seq<PowerEpoch>, epoch: u64) -> Seq<ValidatorPower> {
    let i = find_epoch(s, epoch);
    if i < 0 {
        Seq::empty()
    } else {
        s[i].validators@
    }
}

/// Escrowed funds of one pending proposal (zero when unreadable; such a
/// proposal aborts the pass before its transfer anyway).
pub open spec fn funds_of(props: Seq<StoredProposal>, id: u64) -> int {
    let i = find_proposal(props, id);
    if i < 0 {
        0
    } else {
        match props[i].funds {
            Some(f) => f as int,
            None => 0,
        }
    }
}

/// Escrowed funds of a whole pending-id sequence.
pub open spec fn pending_funds(props: Seq<StoredProposal>, ids: Seq<u64>) -> int
    decreases ids.len(),
{
    if ids.len() == 0 {
        0
    } else {
        funds_of(props, ids[0]) + pending_funds(props, ids.drop_first())
    }
}

pub proof fn lemma_pending_funds_nonneg(props: Seq<StoredProposal>, ids: Seq<u64>)
    ensures
        pending_funds(props, ids) >= 0,
    decreases ids.len(),
{
    if ids.len() > 0 {
        lemma_pending_funds_nonneg(props, ids.drop_first());
    }
}

/// Ghost record of everything one settlement pass accumulates: account
/// balances, the main write-log, the event list, the two result buckets,
/// and the error that aborted the pass, if any.
#[verifier::ext_equal]
pub ghost struct PassState {
    pub accounts: Seq<crate::ledger::Account>,
    pub writes: Seq<WriteOp>,
    pub events: Seq<ProposalEvent>,
    pub passed: Seq<u64>,
    pub rejected: Seq<u64>,
    pub error: Option<GovError>,
}

pub open spec fn pass_state(
    accounts: Seq<crate::ledger::Account>,
    writes: Seq<WriteOp>,
    events: Seq<ProposalEvent>,
    passed: Seq<u64>,
    rejected: Seq<u64>,
) -> PassState {
    PassState { accounts, writes, events, passed, rejected, error: None }
}

pub open spec fn fail_pass(st: PassState, id: u64, field: ProposalField) -> PassState {
    PassState { error: Some(GovError::BadProposal(id, field)), ..st }
}

/// How one drained proposal id settles: the per-proposal state machine.
///
/// Reads fail the whole pass in the order the coordinator performs them:
/// funds, start epoch, and, only for a passed tally, author. A passed
/// proposal with a payload settles on the payload outcome: acceptance
/// merges the staged writes and pays the author; rejection or a runtime
/// error discards them and pays the treasury, overriding the tally. A
/// passed proposal without a payload pays the author. A rejected or
/// unknown tally pays the treasury.
pub open spec fn settle_one(
    props: Seq<StoredProposal>,
    epochs: Seq<PowerEpoch>,
    id: u64,
    st: PassState,
) -> PassState {
    let pi = find_proposal(props, id);
    if pi < 0 {
        fail_pass(st, id, ProposalField::Funds)
    } else {
        let p = props[pi];
        if p.funds is None {
            fail_pass(st, id, ProposalField::Funds)
        } else if p.start_epoch is None {
            fail_pass(st, id, ProposalField::StartEpoch)
        } else {
            let funds = p.funds->0;
            let tally = spec_tally(powers_at(epochs, p.start_epoch->0), p.yea_votes@);
            if tally == TallyResult::Passed {
                if p.author is None {
                    fail_pass(st, id, ProposalField::Author)
                } else {
                    let author = p.author->0;
                    match p.code {
                        Some(CodeOutcome::Accepted(ws)) => PassState {
                            accounts: spec_transfer(st.accounts, GOVERNANCE_ADDRESS, author, funds),
                            writes: st.writes + ws@,
                            events: st.events.push(ProposalEvent {
                                tally: TallyResult::Passed,
                                proposal_id: id,
                                has_code: true,
                                code_accepted: true,
                            }),
                            passed: st.passed.push(id),
                            rejected: st.rejected,
                            error: None,
                        },
                        Some(CodeOutcome::Rejected(_)) | Some(CodeOutcome::Error) => PassState {
                            accounts: spec_transfer(
                                st.accounts,
                                GOVERNANCE_ADDRESS,
                                TREASURY_ADDRESS,
                                funds,
                            ),
                            writes: st.writes,
                            events: st.events.push(ProposalEvent {
                                tally: TallyResult::Passed,
                                proposal_id: id,
                                has_code: true,
                                code_accepted: false,
                            }),
                            passed: st.passed,
                            rejected: st.rejected.push(id),
                            error: None,
                        },
                        None => PassState {
                            accounts: spec_transfer(st.accounts, GOVERNANCE_ADDRESS, author, funds),
                            writes: st.writes,
                            events: st.events.push(ProposalEvent {
                                tally: TallyResult::Passed,
                                proposal_id: id,
                                has_code: false,
                                code_accepted: false,
                            }),
                            passed: st.passed.push(id),
                            rejected: st.rejected,
                            error: None,
                        },
                    }
                }
            } else {
                PassState {
                    accounts: spec_transfer(
                        st.accounts,
                        GOVERNANCE_ADDRESS,
                        TREASURY_ADDRESS,
                        funds,
                    ),
                    writes: st.writes,
                    events: st.events.push(ProposalEvent {
                        tally: TallyResult::Rejected,
                        proposal_id: id,
                        has_code: false,
                        code_accepted: false,
                    }),
                    passed: st.passed,
                    rejected: st.rejected.push(id),
                    error: None,
                }
            }
        }
    }
}

/// Folds [`settle_one`] over the drained ids, stopping at the first error.
pub open spec fn settle_all(
    props: Seq<StoredProposal>,
    epochs: Seq<PowerEpoch>,
    ids: Seq<u64>,
    st: PassState,
) -> PassState
    decreases ids.len(),
{
    if st.error is Some || ids.len() == 0 {
        st
    } else {
        settle_all(props, epochs, ids.drop_first(), settle_one(props, epochs, ids[0], st))
    }
}

/// The full functional description of one coordinator call at an epoch
/// boundary, from the pre-call state and event list.
pub open spec fn spec_execute(state: GovState, events: Seq<ProposalEvent>) -> PassState {
    settle_all(
        state.proposals@,
        state.power_epochs@,
        state.pending_proposals@,
        pass_state(
            state.ledger.accounts@,
            state.committed_writes@,
            events,
            Seq::empty(),
            Seq::empty(),
        ),
    )
}

impl GovState {
    /// Well-formed context: the ledger is sound and the governance escrow
    /// covers every pending proposal's funds, as proposal creation
    /// establishes.
    pub open spec fn wf(&self) -> bool {
        &&& self.ledger.wf()
        &&& spec_balance(self.ledger.accounts@, GOVERNANCE_ADDRESS) >= pending_funds(
            self.proposals@,
            self.pending_proposals@,
        )
    }
}

/// First stored proposal with `id`, as an index.
pub fn find_proposal_index(props: &Vec<StoredProposal>, id: u64) -> (r: Option<usize>)
    ensures
        match r {
            Some(i) => i as int == find_proposal(props@, id),
            None => find_proposal(props@, id) == -1,
        },
{
    let mut i: usize = 0;
    while i < props.len()
        invariant
            0 <= i <= props@.len(),
            forall|j: int| 0 <= j < i ==> props@[j].id != id,
        decreases props@.len() - i,
    {
        if props[i].id == id {
            proof {
                lemma_find_proposal_char(props@, id);
                let r = find_proposal(props@, id);
                assert(r >= 0);
                assert(r == i as int) by {
                    if r < i as int {
                        assert(props@[r].id == id);
                    }
                }
            }
            return Some(i);
        }
        i += 1;
    }
    proof {
        lemma_find_proposal_char(props@, id);
        let r = find_proposal(props@, id);
        if r >= 0 {
            assert(props@[r].id == id);
        }
    }
    None
}

/// First voting-power snapshot for `epoch`, as an index.
pub fn find_epoch_index(epochs: &Vec<PowerEpoch>, epoch: u64) -> (r: Option<usize>)
    ensures
        match r {
            Some(i) => i as int == find_epoch(epochs@, epoch),
            None => find_epoch(epochs@, epoch) == -1,
        },
{
    let mut i: usize = 0;
    while i < epochs.len()
        invariant
            0 <= i <= epochs@.len(),
            forall|j: int| 0 <= j < i ==> epochs@[j].epoch != epoch,
        decreases epochs@.len() - i,
    {
        if epochs[i].epoch == epoch {
            proof {
                lemma_find_epoch_char(epochs@, epoch);
                let r = find_epoch(epochs@, epoch);
                assert(r >= 0);
                assert(r == i as int) by {
                    if r < i as int {
                        assert(epochs@[r].epoch == epoch);
                    }
                }
            }
            return Some(i);
        }
        i += 1;
    }
    proof {
        lemma_find_epoch_char(epochs@, epoch);
        let r = find_epoch(epochs@, epoch);
        if r >= 0 {
            assert(epochs@[r].epoch == epoch);
        }
    }
    None
}

/// Merges the staged writes of an accepted code payload into the main
/// write-log, keeping their order.
fn append_writes(dst: &mut Vec<WriteOp>, src: &Vec<WriteOp>)
    ensures
        final(dst)@ == old(dst)@ + src@,
{
    let mut k: usize = 0;
    proof {
        assert(old(dst)@ + src@.take(0) =~= old(dst)@);
    }
    while k < src.len()
        invariant
            0 <= k <= src@.len(),
            dst@ == old(dst)@ + src@.take(k as int),
        decreases src@.len() - k,
    {
        let w = src[k];
        dst.push(w);
        proof {
            assert(old(dst)@ + src@.take(k as int + 1) =~= (old(dst)@ + src@.take(k as int)).push(
                src@[k as int],
            ));
        }
        k += 1;
    }
    proof {
        assert(src@.take(src@.len() as int) =~= src@);
    }
}

/// Settles every pending governance proposal at an epoch boundary.
///
/// Off the boundary (`new_epoch` false) nothing happens and the result is
/// empty. On the boundary the pending-proposal set is drained — a second
/// call in the same block finds it empty — and each drained id settles as
/// [`settle_one`] describes, appending one event per proposal to `events`.
/// A missing required proposal field aborts the pass with the effects of
/// the earlier proposals kept. Total token supply is conserved in every
/// case, and the in-flight marker is always released.
pub fn execute_governance_proposals(
    state: &mut GovState,
    new_epoch: bool,
    events: &mut Vec<ProposalEvent>,
) -> (r: Result<ProposalsResult, GovError>)
    requires
        old(state).wf(),
        old(state).pending_execution is None,
    ensures
        final(state).proposals@ == old(state).proposals@,
        final(state).power_epochs@ == old(state).power_epochs@,
        final(state).pending_execution is None,
        final(state).ledger.wf(),
        total_supply(final(state).ledger.accounts@) == total_supply(old(state).ledger.accounts@),
        !new_epoch ==> ({
            &&& *final(state) == *old(state)
            &&& final(events)@ == old(events)@
            &&& match r {
                Ok(pr) => pr.passed@.len() == 0 && pr.rejected@.len() == 0,
                Err(_) => false,
            }
        }),
        new_epoch ==> ({
            let fin = spec_execute(*old(state), old(events)@);
            &&& final(state).pending_proposals@ == Seq::<u64>::empty()
            &&& final(state).ledger.accounts@ == fin.accounts
            &&& final(state).committed_writes@ == fin.writes
            &&& final(events)@ == fin.events
            &&& match r {
                Ok(pr) => fin.error is None && pr.passed@ == fin.passed && pr.rejected@
                    == fin.rejected,
                Err(e) => fin.error == Some(e),
            }
        }),
{
    let mut result = ProposalsResult { passed: Vec::new(), rejected: Vec::new() };
    if !new_epoch {
        return Ok(result);
    }
    let ghost propsg = old(state).proposals@;
    let ghost epochsg = old(state).power_epochs@;
    let ghost idsg = old(state).pending_proposals@;
    let ghost st0 = pass_state(
        old(state).ledger.accounts@,
        old(state).committed_writes@,
        old(events)@,
        Seq::empty(),
        Seq::empty(),
    );
    proof {
        assert(idsg.skip(0) =~= idsg);
    }
    let n = state.pending_proposals.len();
    let mut i: usize = 0;
    while i < n
        invariant
            new_epoch,
            0 <= i <= n,
            n == idsg.len(),
            propsg == old(state).proposals@,
            epochsg == old(state).power_epochs@,
            idsg == old(state).pending_proposals@,
            st0 == pass_state(
                old(state).ledger.accounts@,
                old(state).committed_writes@,
                old(events)@,
                Seq::empty(),
                Seq::empty(),
            ),
            state.pending_proposals@ == idsg,
            state.proposals@ == propsg,
            state.power_epochs@ == epochsg,
            state.pending_execution is None,
            state.ledger.wf(),
            total_supply(state.ledger.accounts@) == total_supply(st0.accounts),
            spec_balance(state.ledger.accounts@, GOVERNANCE_ADDRESS) >= pending_funds(
                propsg,
                idsg.skip(i as int),
            ),
            settle_all(propsg, epochsg, idsg, st0) == settle_all(
                propsg,
                epochsg,
                idsg.skip(i as int),
                pass_state(
                    state.ledger.accounts@,
                    state.committed_writes@,
                    events@,
                    result.passed@,
                    result.rejected@,
                ),
            ),
        decreases n - i,
    {
        let id = state.pending_proposals[i];
        let ghost cur = pass_state(
            state.ledger.accounts@,
            state.committed_writes@,
            events@,
            result.passed@,
            result.rejected@,
        );
        proof {
            assert(idsg.skip(i as int)[0] == id);
            assert(idsg.skip(i as int).drop_first() =~= idsg.skip(i as int + 1));
            lemma_find_proposal_char(propsg, id);
        }
        let pi = match find_proposal_index(&state.proposals, id) {
            Some(pi) => pi,
            None => {
                proof {
                    let one = settle_one(propsg, epochsg, id, cur);
                    assert(one == fail_pass(cur, id, ProposalField::Funds));
                    assert(settle_all(propsg, epochsg, idsg.skip(i as int), cur) == settle_all(
                        propsg,
                        epochsg,
                        idsg.skip(i as int + 1),
                        one,
                    ));
                    assert(settle_all(propsg, epochsg, idsg.skip(i as int + 1), one) == one);
                }
                state.pending_proposals = Vec::new();
                proof {
                    assert(state.pending_proposals@ =~= Seq::<u64>::empty());
                }
                return Err(GovError::BadProposal(id, ProposalField::Funds));
            },
        };
        let funds = match state.proposals[pi].funds {
            Some(f) => f,
            None => {
                proof {
                    let one = settle_one(propsg, epochsg, id, cur);
                    assert(one == fail_pass(cur, id, ProposalField::Funds));
                    assert(settle_all(propsg, epochsg, idsg.skip(i as int), cur) == settle_all(
                        propsg,
                        epochsg,
                        idsg.skip(i as int + 1),
                        one,
                    ));
                    assert(settle_all(propsg, epochsg, idsg.skip(i as int + 1), one) == one);
                }
                state.pending_proposals = Vec::new();
                proof {
                    assert(state.pending_proposals@ =~= Seq::<u64>::empty());
                }
                return Err(GovError::BadProposal(id, ProposalField::Funds));
            },
        };
        let start_epoch = match state.proposals[pi].start_epoch {
            Some(se) => se,
            None => {
                proof {
                    let one = settle_one(propsg, epochsg, id, cur);
                    assert(one == fail_pass(cur, id, ProposalField::StartEpoch));
                    assert(settle_all(propsg, epochsg, idsg.skip(i as int), cur) == settle_all(
                        propsg,
                        epochsg,
                        idsg.skip(i as int + 1),
                        one,
                    ));
                    assert(settle_all(propsg, epochsg, idsg.skip(i as int + 1), one) == one);
                }
                state.pending_proposals = Vec::new();
                proof {
                    assert(state.pending_proposals@ =~= Seq::<u64>::empty());
                }
                return Err(GovError::BadProposal(id, ProposalField::StartEpoch));
            },
        };
        proof {
            lemma_find_epoch_char(epochsg, start_epoch);
        }
        let tally = match find_epoch_index(&state.power_epochs, start_epoch) {
            Some(ei) => compute_tally(
                &state.power_epochs[ei].validators,
                &state.proposals[pi].yea_votes,
            ),
            None => TallyResult::Unknown,
        };
        proof {
            lemma_find_epoch_char(epochsg, start_epoch);
            assert(tally == spec_tally(
                powers_at(epochsg, start_epoch),
                propsg[pi as int].yea_votes@,
            ));
        }
        let mut dest: u64 = TREASURY_ADDRESS;
        if tally == TallyResult::Passed {
            let author = match state.proposals[pi].author {
                Some(a) => a,
                None => {
                    proof {
                        let one = settle_one(propsg, epochsg, id, cur);
                        assert(one == fail_pass(cur, id, ProposalField::Author));
                        assert(settle_all(propsg, epochsg, idsg.skip(i as int), cur) == settle_all(
                            propsg,
                            epochsg,
                            idsg.skip(i as int + 1),
                            one,
                        ));
                        assert(settle_all(propsg, epochsg, idsg.skip(i as int + 1), one) == one);
                    }
                    state.pending_proposals = Vec::new();
                    proof {
                        assert(state.pending_proposals@ =~= Seq::<u64>::empty());
                    }
                    return Err(GovError::BadProposal(id, ProposalField::Author));
                },
            };
            match &state.proposals[pi].code {
                None => {
                    events.push(ProposalEvent {
                        tally: TallyResult::Passed,
                        proposal_id: id,
                        has_code: false,
                        code_accepted: false,
                    });
                    result.passed.push(id);
                    dest = author;
                    proof {
                        let one = settle_one(propsg, epochsg, id, cur);
                        assert(one.accounts == spec_transfer(
                            cur.accounts,
                            GOVERNANCE_ADDRESS,
                            dest,
                            funds,
                        ));
                        assert(one.writes == state.committed_writes@);
                        assert(one.events == events@);
                        assert(one.passed == result.passed@);
                        assert(one.rejected == result.rejected@);
                        assert(one.error is None);
                    }
                },
                Some(CodeOutcome::Accepted(ws)) => {
                    // scoped in-flight marker around the payload dispatch
                    state.pending_execution = Some(id);
                    append_writes(&mut state.committed_writes, ws);
                    state.pending_execution = None;
                    events.push(ProposalEvent {
                        tally: TallyResult::Passed,
                        proposal_id: id,
                        has_code: true,
                        code_accepted: true,
                    });
                    result.passed.push(id);
                    dest = author;
                    proof {
                        let one = settle_one(propsg, epochsg, id, cur);
                        assert(one.accounts == spec_transfer(
                            cur.accounts,
                            GOVERNANCE_ADDRESS,
                            dest,
                            funds,
                        ));
                        assert(one.writes == state.committed_writes@);
                        assert(one.events == events@);
                        assert(one.passed == result.passed@);
                        assert(one.rejected == result.rejected@);
                        assert(one.error is None);
                    }
                },
                Some(CodeOutcome::Rejected(_)) | Some(CodeOutcome::Error) => {
                    // the payload ran but was not accepted: its staged
                    // writes are discarded, and code rejection overrides
                    // the passed tally
                    state.pending_execution = Some(id);
                    state.pending_execution = None;
                    events.push(ProposalEvent {
                        tally: TallyResult::Passed,
                        proposal_id: id,
                        has_code: true,
                        code_accepted: false,
                    });
                    result.rejected.push(id);
                    dest = TREASURY_ADDRESS;
                    proof {
                        let one = settle_one(propsg, epochsg, id, cur);
                        assert(one.accounts == spec_transfer(
                            cur.accounts,
                            GOVERNANCE_ADDRESS,
                            dest,
                            funds,
                        ));
                        assert(one.writes == state.committed_writes@);
                        assert(one.events == events@);
                        assert(one.passed == result.passed@);
                        assert(one.rejected == result.rejected@);
                        assert(one.error is None);
                    }
                },
            }
        } else {
            events.push(ProposalEvent {
                tally: TallyResult::Rejected,
                proposal_id: id,
                has_code: false,
                code_accepted: false,
            });
            result.rejected.push(id);
            dest = TREASURY_ADDRESS;
            proof {
                let one = settle_one(propsg, epochsg, id, cur);
                assert(one.accounts == spec_transfer(
                    cur.accounts,
                    GOVERNANCE_ADDRESS,
                    dest,
                    funds,
                ));
                assert(one.writes == state.committed_writes@);
                assert(one.events == events@);
                assert(one.passed == result.passed@);
                assert(one.rejected == result.rejected@);
                assert(one.error is None);
            }
        }
        proof {
            lemma_pending_funds_nonneg(propsg, idsg.skip(i as int + 1));
            assert(pending_funds(propsg, idsg.skip(i as int)) == funds_of(propsg, id)
                + pending_funds(propsg, idsg.skip(i as int + 1)));
            assert(funds_of(propsg, id) == funds);
            assert(spec_balance(cur.accounts, GOVERNANCE_ADDRESS) >= funds);
            crate::ledger::lemma_transfer(cur.accounts, GOVERNANCE_ADDRESS, dest, funds);
        }
        state.ledger.transfer(GOVERNANCE_ADDRESS, dest, funds);
        proof {
            let one = settle_one(propsg, epochsg, id, cur);
            let cur2 = pass_state(
                state.ledger.accounts@,
                state.committed_writes@,
                events@,
                result.passed@,
                result.rejected@,
            );
            assert(one =~= cur2);
            assert(settle_all(propsg, epochsg, idsg.skip(i as int), cur) == settle_all(
                propsg,
                epochsg,
                idsg.skip(i as int + 1),
                one,
            ));
            assert(spec_balance(state.ledger.accounts@, GOVERNANCE_ADDRESS) >= pending_funds(
                propsg,
                idsg.skip(i as int + 1),
            ));
        }
        i += 1;
    }
    proof {
        assert(idsg.skip(n as int) =~= Seq::<u64>::empty());
    }
    state.pending_proposals = Vec::new();
    proof {
        assert(state.pending_proposals@ =~= Seq::<u64>::empty());
    }
    Ok(result)
}

/// A proposal whose tally comes out `Rejected` or `Unknown` settles into the
/// `rejected` bucket: no code runs, the write-log is untouched, the escrowed
/// funds move in full from the governance escrow to the treasury, and the
/// emitted event reports a rejected tally without acceptance.
pub proof fn lemma_settle_rejected_tally(
    props: Seq<StoredProposal>,
    epochs: Seq<PowerEpoch>,
    id: u64,
    st: PassState,
)
    requires
        st.error is None,
        find_proposal(props, id) >= 0,
        ({
            let p = props[find_proposal(props, id)];
            &&& p.funds is Some
            &&& p.start_epoch is Some
            &&& spec_tally(powers_at(epochs, p.start_epoch->0), p.yea_votes@)
                != TallyResult::Passed
        }),
        spec_balance(st.accounts, GOVERNANCE_ADDRESS) >= funds_of(props, id),
        total_supply(st.accounts) <= u64::MAX,
    ensures
        ({
            let one = settle_one(props, epochs, id, st);
            let funds = funds_of(props, id);
            &&& one.error is None
            &&& one.rejected == st.rejected.push(id)
            &&& one.passed == st.passed
            &&& one.writes == st.writes
            &&& one.events == st.events.push(ProposalEvent {
                tally: TallyResult::Rejected,
                proposal_id: id,
                has_code: false,
                code_accepted: false,
            })
            &&& spec_balance(one.accounts, TREASURY_ADDRESS)
                == spec_balance(st.accounts, TREASURY_ADDRESS) + funds
            &&& spec_balance(one.accounts, GOVERNANCE_ADDRESS)
                == spec_balance(st.accounts, GOVERNANCE_ADDRESS) - funds
            &&& total_supply(one.accounts) == total_supply(st.accounts)
        }),
{
    let pi = find_proposal(props, id);
    lemma_find_proposal_char(props, id);
    let funds = props[pi].funds->0;
    crate::ledger::lemma_transfer(st.accounts, GOVERNANCE_ADDRESS, TREASURY_ADDRESS, funds);
}

/// A passed proposal without a code payload settles into the `passed`
/// bucket: the write-log is untouched, the escrowed funds move in full to
/// the author, and the emitted event reports a passed tally, no code, and
/// no acceptance.
pub proof fn lemma_settle_passed_no_code(
    props: Seq<StoredProposal>,
    epochs: Seq<PowerEpoch>,
    id: u64,
    st: PassState,
)
    requires
        st.error is None,
        find_proposal(props, id) >= 0,
        ({
            let p = props[find_proposal(props, id)];
            &&& p.funds is Some
            &&& p.start_epoch is Some
            &&& p.author is Some
            &&& p.code is None
            &&& spec_tally(powers_at(epochs, p.start_epoch->0), p.yea_votes@)
                == TallyResult::Passed
        }),
        spec_balance(st.accounts, GOVERNANCE_ADDRESS) >= funds_of(props, id),
        total_supply(st.accounts) <= u64::MAX,
    ensures
        ({
            let one = settle_one(props, epochs, id, st);
            let funds = funds_of(props, id);
            let author = props[find_proposal(props, id)].author->0;
            &&& one.error is None
            &&& one.passed == st.passed.push(id)
            &&& one.rejected == st.rejected
            &&& one.writes == st.writes
            &&& one.events == st.events.push(ProposalEvent {
                tally: TallyResult::Passed,
                proposal_id: id,
                has_code: false,
                code_accepted: false,
            })
            &&& spec_balance(one.accounts, author) == if author == GOVERNANCE_ADDRESS {
                spec_balance(st.accounts, author)
            } else {
                spec_balance(st.accounts, author) + funds
            }
            &&& spec_balance(one.accounts, GOVERNANCE_ADDRESS) == if author == GOVERNANCE_ADDRESS {
                spec_balance(st.accounts, GOVERNANCE_ADDRESS)
            } else {
                spec_balance(st.accounts, GOVERNANCE_ADDRESS) - funds
            }
            &&& total_supply(one.accounts) == total_supply(st.accounts)
        }),
{
    let pi = find_proposal(props, id);
    lemma_find_proposal_char(props, id);
    let funds = props[pi].funds->0;
    let author = props[pi].author->0;
    crate::ledger::lemma_transfer(st.accounts, GOVERNANCE_ADDRESS, author, funds);
}

/// A passed proposal whose code payload is accepted settles into the
/// `passed` bucket: the payload's staged writes are committed to the main
/// write-log in order, the escrowed funds move in full to the author, and
/// the emitted event reports a passed tally with accepted code.
pub proof fn lemma_settle_code_accepted(
    props: Seq<StoredProposal>,
    epochs: Seq<PowerEpoch>,
    id: u64,
    st: PassState,
    ws: Vec<WriteOp>,
)
    requires
        st.error is None,
        find_proposal(props, id) >= 0,
        ({
            let p = props[find_proposal(props, id)];
            &&& p.funds is Some
            &&& p.start_epoch is Some
            &&& p.author is Some
            &&& p.code == Some(CodeOutcome::Accepted(ws))
            &&& spec_tally(powers_at(epochs, p.start_epoch->0), p.yea_votes@)
                == TallyResult::Passed
        }),
        spec_balance(st.accounts, GOVERNANCE_ADDRESS) >= funds_of(props, id),
        total_supply(st.accounts) <= u64::MAX,
    ensures
        ({
            let one = settle_one(props, epochs, id, st);
            let funds = funds_of(props, id);
            let author = props[find_proposal(props, id)].author->0;
            &&& one.error is None
            &&& one.passed == st.passed.push(id)
            &&& one.rejected == st.rejected
            &&& one.writes == st.writes + ws@
            &&& one.events == st.events.push(ProposalEvent {
                tally: TallyResult::Passed,
                proposal_id: id,
                has_code: true,
                code_accepted: true,
            })
            &&& spec_balance(one.accounts, author) == if author == GOVERNANCE_ADDRESS {
                spec_balance(st.accounts, author)
            } else {
                spec_balance(st.accounts, author) + funds
            }
            &&& spec_balance(one.accounts, GOVERNANCE_ADDRESS) == if author == GOVERNANCE_ADDRESS {
                spec_balance(st.accounts, GOVERNANCE_ADDRESS)
            } else {
                spec_balance(st.accounts, GOVERNANCE_ADDRESS) - funds
            }
            &&& total_supply(one.accounts) == total_supply(st.accounts)
        }),
{
    let pi = find_proposal(props, id);
    lemma_find_proposal_char(props, id);
    let funds = props[pi].funds->0;
    let author = props[pi].author->0;
    crate::ledger::lemma_transfer(st.accounts, GOVERNANCE_ADDRESS, author, funds);
}

/// A passed proposal whose code payload is rejected by its acceptance
/// predicate, or fails with a runtime error, settles into the `rejected`
/// bucket despite the passed tally: its staged writes are discarded, the
/// escrowed funds move in full to the treasury, and the emitted event
/// reports a passed tally with unaccepted code.
pub proof fn lemma_settle_code_rejected(
    props: Seq<StoredProposal>,
    epochs: Seq<PowerEpoch>,
    id: u64,
    st: PassState,
)
    requires
        st.error is None,
        find_proposal(props, id) >= 0,
        ({
            let p = props[find_proposal(props, id)];
            &&& p.funds is Some
            &&& p.start_epoch is Some
            &&& p.author is Some
            &&& match p.code {
                Some(CodeOutcome::Rejected(_)) | Some(CodeOutcome::Error) => true,
                _ => false,
            }
            &&& spec_tally(powers_at(epochs, p.start_epoch->0), p.yea_votes@)
                == TallyResult::Passed
        }),
        spec_balance(st.accounts, GOVERNANCE_ADDRESS) >= funds_of(props, id),
        total_supply(st.accounts) <= u64::MAX,
    ensures
        ({
            let one = settle_one(props, epochs, id, st);
            let funds = funds_of(props, id);
            &&& one.error is None
            &&& one.rejected == st.rejected.push(id)
            &&& one.passed == st.passed
            &&& one.writes == st.writes
            &&& one.events == st.events.push(ProposalEvent {
                tally: TallyResult::Passed,
                proposal_id: id,
                has_code: true,
                code_accepted: false,
            })
            &&& spec_balance(one.accounts, TREASURY_ADDRESS)
                == spec_balance(st.accounts, TREASURY_ADDRESS) + funds
            &&& spec_balance(one.accounts, GOVERNANCE_ADDRESS)
                == spec_balance(st.accounts, GOVERNANCE_ADDRESS) - funds
            &&& total_supply(one.accounts) == total_supply(st.accounts)
        }),
{
    let pi = find_proposal(props, id);
    lemma_find_proposal_char(props, id);
    let funds = props[pi].funds->0;
    crate::ledger::lemma_transfer(st.accounts, GOVERNANCE_ADDRESS, TREASURY_ADDRESS, funds);
}

/// Settlement is idempotent within a block: the first boundary call drains
/// the pending set, so a second call in the same block starts from an empty
/// set and, as stated here, changes nothing and returns empty buckets.
pub proof fn lemma_second_pass_is_empty(state: GovState, events: Seq<ProposalEvent>)
    requires
        state.pending_proposals@.len() == 0,
    ensures
        spec_execute(state, events) == pass_state(
            state.ledger.accounts@,
            state.committed_writes@,
            events,
            Seq::empty(),
            Seq::empty(),
        ),
{
}

} // verus!
