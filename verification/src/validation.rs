//! Validator-set-update vote-extension validation.
//!
//! A validator attests, once per block round, to the claimed voting powers
//! of the next epoch's consensus validator set. Validation checks the
//! attestation against the chain's own epoch-indexed snapshot and the
//! signature scheme, short-circuiting on the first failure.

use vstd::prelude::*;
use vstd::pervasive::VecAdditionalExecFns;

verus! {

/// An externally-facing signing-key address (twenty bytes).
#[derive(Clone, Copy)]
pub struct EthAddress(pub [u8; 20]);

/// The pair of externally-used signing-key addresses of one validator: its
/// hot key's address and its cold key's address.
#[derive(Clone, Copy)]
pub struct EthAddrBook {
    pub hot_key_addr: EthAddress,
    pub cold_key_addr: EthAddress,
}

/// Address books are compared by the bytes of both addresses.
pub open spec fn book_eq(a: EthAddrBook, b: EthAddrBook) -> bool {
    a.hot_key_addr.0@ == b.hot_key_addr.0@ && a.cold_key_addr.0@ == b.cold_key_addr.0@
}

fn eth_address_eq(a: &EthAddress, b: &EthAddress) -> (r: bool)
    ensures
        r == (a.0@ == b.0@),
{
    let mut i: usize = 0;
    while i < 20
        invariant
            0 <= i <= 20,
            forall|j: int| 0 <= j < i ==> a.0@[j] == b.0@[j],
        decreases 20 - i,
    {
        if a.0[i] != b.0[i] {
            return false;
        }
        i += 1;
    }
    proof {
        assert(a.0@ =~= b.0@);
    }
    true
}

/// Whether two address books name the same key addresses.
pub fn addr_book_eq(a: &EthAddrBook, b: &EthAddrBook) -> (r: bool)
    ensures
        r == book_eq(*a, *b),
{
    eth_address_eq(&a.hot_key_addr, &b.hot_key_addr) && eth_address_eq(
        &a.cold_key_addr,
        &b.cold_key_addr,
    )
}

/// The claimed voting powers of the next epoch's validator set: a mapping
/// from address book to fixed-point power, with no duplicate keys, kept in
/// insertion order so every node walks it the same way.
pub struct VotingPowersMap {
    pub entries: Vec<(EthAddrBook, u64)>,
}

/// First power recorded under `key`, if any.
pub open spec fn spec_get(entries: Seq<(EthAddrBook, u64)>, key: EthAddrBook) -> Option<u64>
    decreases entries.len(),
{
    if entries.len() == 0 {
        None
    } else if book_eq(entries[0].0, key) {
        Some(entries[0].1)
    } else {
        spec_get(entries.drop_first(), key)
    }
}

/// No two entries share a key.
pub open spec fn map_wf(entries: Seq<(EthAddrBook, u64)>) -> bool {
    forall|i: int, j: int| 0 <= i < j < entries.len() ==> !book_eq(entries[i].0, entries[j].0)
}

/// What an insert produces: the first entry under `key` updated, or a new
/// entry appended when none exists.
pub open spec fn spec_insert(
    entries: Seq<(EthAddrBook, u64)>,
    key: EthAddrBook,
    power: u64,
) -> Seq<(EthAddrBook, u64)>
    decreases entries.len(),
{
    if entries.len() == 0 {
        seq![(key, power)]
    } else if book_eq(entries[0].0, key) {
        seq![(key, power)] + entries.drop_first()
    } else {
        seq![entries[0]] + spec_insert(entries.drop_first(), key, power)
    }
}

/// An insert is a single-index update at the first match, or an append.
pub proof fn lemma_insert_shape(entries: Seq<(EthAddrBook, u64)>, key: EthAddrBook, power: u64)
    ensures
        (forall|j: int| 0 <= j < entries.len() ==> !book_eq(entries[j].0, key)) ==> spec_insert(
            entries,
            key,
            power,
        ) == entries.push((key, power)),
        forall|i: int|
            0 <= i < entries.len() && book_eq(entries[i].0, key) && (forall|j: int|
                0 <= j < i ==> !book_eq(entries[j].0, key)) ==> spec_insert(entries, key, power)
                == entries.update(i, (key, power)),
    decreases entries.len(),
{
    if entries.len() == 0 {
        assert(spec_insert(entries, key, power) =~= entries.push((key, power)));
    } else {
        lemma_insert_shape(entries.drop_first(), key, power);
        let c = spec_insert(entries, key, power);
        if book_eq(entries[0].0, key) {
            assert(c =~= entries.update(0, (key, power)));
        } else {
            if forall|j: int| 0 <= j < entries.len() ==> !book_eq(entries[j].0, key) {
                assert(forall|j: int|
                    0 <= j < entries.drop_first().len() ==> !book_eq(
                        entries.drop_first()[j].0,
                        key,
                    ));
                assert(c =~= entries.push((key, power)));
            }
            assert forall|i: int|
                0 <= i < entries.len() && book_eq(entries[i].0, key) && (forall|j: int|
                    0 <= j < i ==> !book_eq(entries[j].0, key)) implies spec_insert(
                entries,
                key,
                power,
            ) == entries.update(i, (key, power)) by {
                assert(i > 0);
                assert(entries.drop_first()[i - 1] == entries[i]);
                assert(forall|j: int| 0 <= j < i - 1 ==> entries.drop_first()[j] == entries[j + 1]);
                assert(spec_insert(entries.drop_first(), key, power) == entries.drop_first().update(
                    i - 1,
                    (key, power),
                ));
                assert(c =~= entries.update(i, (key, power)));
            }
        }
    }
}

impl VotingPowersMap {
    /// An empty map.
    pub fn new() -> (m: VotingPowersMap)
        ensures
            m.entries@.len() == 0,
    {
        VotingPowersMap { entries: Vec::new() }
    }

    /// Number of claimed validators.
    pub fn len(&self) -> (n: usize)
        ensures
            n == self.entries@.len(),
    {
        self.entries.len()
    }

    /// The power claimed for `key`, if any.
    pub fn get(&self, key: &EthAddrBook) -> (r: Option<u64>)
        ensures
            r == spec_get(self.entries@, *key),
    {
        let mut k: usize = 0;
        proof {
            assert(self.entries@.skip(0) =~= self.entries@);
        }
        while k < self.entries.len()
            invariant
                0 <= k <= self.entries@.len(),
                spec_get(self.entries@, *key) == spec_get(self.entries@.skip(k as int), *key),
            decreases self.entries@.len() - k,
        {
            proof {
                assert(self.entries@.skip(k as int)[0] == self.entries@[k as int]);
                assert(self.entries@.skip(k as int).drop_first() =~= self.entries@.skip(
                    k as int + 1,
                ));
            }
            if addr_book_eq(&self.entries[k].0, &key) {
                return Some(self.entries[k].1);
            }
            k += 1;
        }
        proof {
            assert(self.entries@.skip(self.entries@.len() as int) =~= Seq::<(
                EthAddrBook,
                u64,
            )>::empty());
        }
        None
    }

    /// Records `power` under `key`, replacing an earlier claim for the same
    /// key, so no duplicate keys ever arise.
    pub fn insert(&mut self, key: EthAddrBook, power: u64)
        ensures
            final(self).entries@ == spec_insert(old(self).entries@, key, power),
            map_wf(old(self).entries@) ==> map_wf(final(self).entries@),
    {
        let ghost e0 = self.entries@;
        proof {
            lemma_insert_shape(e0, key, power);
        }
        let mut k: usize = 0;
        while k < self.entries.len()
            invariant
                0 <= k <= self.entries@.len(),
                e0 == old(self).entries@,
                self.entries@ == e0,
                forall|j: int| 0 <= j < k ==> !book_eq(e0[j].0, key),
            decreases self.entries@.len() - k,
        {
            if addr_book_eq(&self.entries[k].0, &key) {
                self.entries.set(k, (key, power));
                proof {
                    lemma_insert_shape(e0, key, power);
                    assert(self.entries@ == spec_insert(e0, key, power));
                    if map_wf(e0) {
                        assert(self.entries@ == e0.update(k as int, (key, power)));
                        assert forall|i: int, j: int|
                            0 <= i < j < self.entries@.len() implies !book_eq(
                            self.entries@[i].0,
                            self.entries@[j].0,
                        ) by {
                            if i == k as int {
                                assert(self.entries@[j] == e0[j]);
                                assert(!book_eq(e0[k as int].0, e0[j].0));
                                assert(book_eq(e0[k as int].0, key));
                            } else if j == k as int {
                                assert(self.entries@[i] == e0[i]);
                                assert(!book_eq(e0[i].0, key));
                            } else {
                                assert(self.entries@[i] == e0[i]);
                                assert(self.entries@[j] == e0[j]);
                            }
                        }
                    }
                }
                return ;
            }
            k += 1;
        }
        self.entries.push((key, power));
        proof {
            lemma_insert_shape(e0, key, power);
            assert(self.entries@ == spec_insert(e0, key, power));
            if map_wf(e0) {
                assert forall|i: int, j: int|
                    0 <= i < j < self.entries@.len() implies !book_eq(
                    self.entries@[i].0,
                    self.entries@[j].0,
                ) by {}
            }
        }
    }
}

/// The body of a validator-set-update vote extension: the claimed voting
/// powers of the validator set of `signing_epoch`'s successor, attested by
/// `validator_addr`.
pub struct Vext {
    pub voting_powers: VotingPowersMap,
    pub signing_epoch: u64,
    pub validator_addr: u64,
}

/// A signature in the symbolic model of the external scheme: it records
/// which key produced it and the exact payload it covers, and verifies
/// against exactly that key and payload.
pub struct Signature {
    pub signed_by: u64,
    pub signed_payload: Vext,
}

/// A vote extension together with the signature covering its body.
pub struct SignedVext {
    pub data: Vext,
    pub sig: Signature,
}

/// Entry-wise equality of claimed power listings, in order.
pub open spec fn entries_eq(a: Seq<(EthAddrBook, u64)>, b: Seq<(EthAddrBook, u64)>) -> bool {
    &&& a.len() == b.len()
    &&& forall|i: int| 0 <= i < a.len() ==> book_eq(#[trigger] a[i].0, b[i].0) && a[i].1 == b[i].1
}

/// Equality of extension bodies: same epoch, same attester, same claims.
pub open spec fn vext_eq(a: Vext, b: Vext) -> bool {
    &&& a.signing_epoch == b.signing_epoch
    &&& a.validator_addr == b.validator_addr
    &&& entries_eq(a.voting_powers.entries@, b.voting_powers.entries@)
}

/// When a signature verifies: it was produced by `pk` over exactly `data`.
pub open spec fn spec_sig_ok(pk: u64, data: Vext, sig: Signature) -> bool {
    sig.signed_by == pk && vext_eq(sig.signed_payload, data)
}

/// Whether two extension bodies are equal.
pub fn vext_matches(a: &Vext, b: &Vext) -> (r: bool)
    ensures
        r == vext_eq(*a, *b),
{
    if a.signing_epoch != b.signing_epoch {
        return false;
    }
    if a.validator_addr != b.validator_addr {
        return false;
    }
    if a.voting_powers.entries.len() != b.voting_powers.entries.len() {
        return false;
    }
    let n = a.voting_powers.entries.len();
    let mut i: usize = 0;
    while i < n
        invariant
            0 <= i <= n,
            n == a.voting_powers.entries@.len(),
            n == b.voting_powers.entries@.len(),
            forall|j: int|
                0 <= j < i ==> book_eq(
                    (#[trigger] a.voting_powers.entries@[j]).0,
                    (#[trigger] b.voting_powers.entries@[j]).0,
                ) && a.voting_powers.entries@[j].1 == b.voting_powers.entries@[j].1,
        decreases n - i,
    {
        if !addr_book_eq(&a.voting_powers.entries[i].0, &b.voting_powers.entries[i].0) {
            return false;
        }
        if a.voting_powers.entries[i].1 != b.voting_powers.entries[i].1 {
            return false;
        }
        proof {
            assert(book_eq(
                a.voting_powers.entries@[i as int].0,
                b.voting_powers.entries@[i as int].0,
            ));
            assert(a.voting_powers.entries@[i as int].1 == b.voting_powers.entries@[i as int].1);
        }
        i += 1;
    }
    true
}

/// Checks `sig` against `pk` and the payload `data`.
pub fn verify_signature(pk: u64, data: &Vext, sig: &Signature) -> (r: bool)
    ensures
        r == spec_sig_ok(pk, *data, *sig),
{
    if sig.signed_by != pk {
        return false;
    }
    vext_matches(&sig.signed_payload, data)
}

fn clone_vext(v: &Vext) -> (r: Vext)
    ensures
        vext_eq(r, *v),
{
    let mut entries: Vec<(EthAddrBook, u64)> = Vec::new();
    let n = v.voting_powers.entries.len();
    let mut i: usize = 0;
    while i < n
        invariant
            0 <= i <= n,
            n == v.voting_powers.entries@.len(),
            entries@.len() == i,
            forall|j: int| 0 <= j < i ==> entries@[j] == v.voting_powers.entries@[j],
        decreases n - i,
    {
        let e = v.voting_powers.entries[i];
        entries.push(e);
        i += 1;
    }
    Vext {
        voting_powers: VotingPowersMap { entries },
        signing_epoch: v.signing_epoch,
        validator_addr: v.validator_addr,
    }
}

impl Vext {
    /// Signs the extension body with `key`: in the symbolic model the
    /// signature covers the full body, excluding itself.
    pub fn sign(self, key: u64) -> (r: SignedVext)
        ensures
            r.data == self,
            r.sig.signed_by == key,
            spec_sig_ok(key, r.data, r.sig),
    {
        let payload = clone_vext(&self);
        SignedVext { sig: Signature { signed_by: key, signed_payload: payload }, data: self }
    }
}

/// One consensus validator as the bridge snapshot records it: its address
/// book, its ledger address, and its fixed-point voting power.
#[derive(Clone, Copy)]
pub struct ConsensusValidator {
    pub addr_book: EthAddrBook,
    pub validator_addr: u64,
    pub power: u64,
}

/// Everything the chain records for one epoch that validation consults.
pub struct EpochEntry {
    pub epoch: u64,
    /// The consensus validator set of this epoch, in stable storage order.
    pub consensus_validators: Vec<ConsensusValidator>,
    /// Each validator's externally-used hot signing key for this epoch.
    pub hot_keys: Vec<(u64, u64)>,
    /// Whether a validator-set-update proof for this epoch already exists.
    pub valset_upd_seen: bool,
}

/// Read-only, epoch-indexed view of the chain that validation runs against.
pub struct ChainView {
    pub has_committed_blocks: bool,
    pub epochs: Vec<EpochEntry>,
}

/// Index of the first entry for `epoch`, or -1.
pub open spec fn find_view_epoch(s: Seq<EpochEntry>, epoch: u64) -> int
    decreases s.len(),
{
    if s.len() == 0 {
        -1
    } else if s[0].epoch == epoch {
        0
    } else {
        let r = find_view_epoch(s.drop_first(), epoch);
        if r < 0 {
            -1
        } else {
            r + 1
        }
    }
}

pub proof fn lemma_find_view_epoch_char(s: Seq<EpochEntry>, epoch: u64)
    ensures
        ({
            let r = find_view_epoch(s, epoch);
            &&& r == -1 || r >= 0
            &&& r == -1 ==> forall|j: int| 0 <= j < s.len() ==> s[j].epoch != epoch
            &&& r >= 0 ==> 0 <= r < s.len() && s[r].epoch == epoch && (forall|j: int|
                0 <= j < r ==> s[j].epoch != epoch)
        }),
    decreases s.len(),
{
    if s.len() > 0 && s[0].epoch != epoch {
        lemma_find_view_epoch_char(s.drop_first(), epoch);
        let rt = find_view_epoch(s.drop_first(), epoch);
        if rt == -1 {
            assert forall|j: int| 0 <= j < s.len() implies s[j].epoch != epoch by {
                if j > 0 {
                    assert(s.drop_first()[j - 1] == s[j]);
                }
            }
        } else {
            assert(s.drop_first()[rt] == s[rt + 1]);
            assert forall|j: int| 0 <= j < rt + 1 implies s[j].epoch != epoch by {
                if j > 0 {
                    assert(s.drop_first()[j - 1] == s[j]);
                }
            }
        }
    }
}

/// Whether a validator-set-update proof for `epoch` already exists.
pub open spec fn spec_valset_upd_seen(view: ChainView, epoch: u64) -> bool {
    let i = find_view_epoch(view.epochs@, epoch);
    if i < 0 {
        false
    } else {
        view.epochs@[i].valset_upd_seen
    }
}

/// The consensus validator set as of `epoch`; empty when unrecorded.
pub open spec fn spec_consensus_at(view: ChainView, epoch: u64) -> Seq<ConsensusValidator> {
    let i = find_view_epoch(view.epochs@, epoch);
    if i < 0 {
        Seq::empty()
    } else {
        view.epochs@[i].consensus_validators@
    }
}

/// First hot key recorded for `addr`, if any.
pub open spec fn spec_key_lookup(keys: Seq<(u64, u64)>, addr: u64) -> Option<u64>
    decreases keys.len(),
{
    if keys.len() == 0 {
        None
    } else if keys[0].0 == addr {
        Some(keys[0].1)
    } else {
        spec_key_lookup(keys.drop_first(), addr)
    }
}

/// The hot signing key of `addr` as of `epoch`, if the chain records one.
pub open spec fn spec_hot_key_of(view: ChainView, epoch: u64, addr: u64) -> Option<u64> {
    let i = find_view_epoch(view.epochs@, epoch);
    if i < 0 {
        None
    } else {
        spec_key_lookup(view.epochs@[i].hot_keys@, addr)
    }
}

/// Why a vote extension was dropped, one variant per validation step.
#[derive(Clone, Copy, PartialEq, Eq, Structural, Debug)]
pub enum VoteExtensionError {
    UnexpectedBlockHeight,
    UnexpectedEpoch,
    ValsetUpdProofAvailable,
    ValidatorMissingFromExtension,
    DivergesFromStorage,
    ExtraValidatorsInExtension,
    PubKeyNotInStorage,
    VerifySigFailed,
}

/// The per-entry quorum check, walking the snapshot in order: the first
/// snapshot validator absent from the claims fails as missing; the first
/// present with a different power fails as diverging.
pub open spec fn spec_check_powers(
    cons: Seq<ConsensusValidator>,
    m: Seq<(EthAddrBook, u64)>,
) -> Option<VoteExtensionError>
    decreases cons.len(),
{
    if cons.len() == 0 {
        None
    } else {
        match spec_get(m, cons[0].addr_book) {
            None => Some(VoteExtensionError::ValidatorMissingFromExtension),
            Some(p) => if p != cons[0].power {
                Some(VoteExtensionError::DivergesFromStorage)
            } else {
                spec_check_powers(cons.drop_first(), m)
            },
        }
    }
}

/// The whole validation pipeline, in the order the checks run: genesis,
/// future epoch, already-finalized update, per-entry power comparison,
/// superset cardinality, key lookup, signature.
pub open spec fn spec_validate(view: ChainView, ext: SignedVext, last_epoch: u64) -> Result<
    (),
    VoteExtensionError,
> {
    if !view.has_committed_blocks {
        Err(VoteExtensionError::UnexpectedBlockHeight)
    } else if ext.data.signing_epoch > last_epoch {
        Err(VoteExtensionError::UnexpectedEpoch)
    } else {
        let next_epoch = (ext.data.signing_epoch + 1) as u64;
        if spec_valset_upd_seen(view, next_epoch) {
            Err(VoteExtensionError::ValsetUpdProofAvailable)
        } else {
            let cons = spec_consensus_at(view, next_epoch);
            let m = ext.data.voting_powers.entries@;
            match spec_check_powers(cons, m) {
                Some(e) => Err(e),
                None => if cons.len() != m.len() {
                    Err(VoteExtensionError::ExtraValidatorsInExtension)
                } else {
                    match spec_hot_key_of(view, ext.data.signing_epoch, ext.data.validator_addr) {
                        None => Err(VoteExtensionError::PubKeyNotInStorage),
                        Some(pk) => if spec_sig_ok(pk, ext.data, ext.sig) {
                            Ok(())
                        } else {
                            Err(VoteExtensionError::VerifySigFailed)
                        },
                    }
                },
            }
        }
    }
}

/// First entry for `epoch`, as an index.
fn find_view_epoch_index(epochs: &Vec<EpochEntry>, epoch: u64) -> (r: Option<usize>)
    ensures
        match r {
            Some(i) => i as int == find_view_epoch(epochs@, epoch),
            None => find_view_epoch(epochs@, epoch) == -1,
        },
{
    let mut i: usize = 0;
    while i < epochs.len()
        invariant
            0 <= i <= epochs@.len(),
            forall|j: int| 0 <= j < i ==> epochs@[j].epoch != epoch,
        decreases epochs@.len() - i,
    {
        if epochs[i].epoch == epoch {
            proof {
                lemma_find_view_epoch_char(epochs@, epoch);
                let r = find_view_epoch(epochs@, epoch);
                assert(r >= 0);
                assert(r == i as int) by {
                    if r < i as int {
                        assert(epochs@[r].epoch == epoch);
                    }
                }
            }
            return Some(i);
        }
        i += 1;
    }
    proof {
        lemma_find_view_epoch_char(epochs@, epoch);
        let r = find_view_epoch(epochs@, epoch);
        if r >= 0 {
            assert(epochs@[r].epoch == epoch);
        }
    }
    None
}

/// First hot key recorded for `addr`.
fn find_key(keys: &Vec<(u64, u64)>, addr: u64) -> (r: Option<u64>)
    ensures
        r == spec_key_lookup(keys@, addr),
{
    let mut k: usize = 0;
    proof {
        assert(keys@.skip(0) =~= keys@);
    }
    while k < keys.len()
        invariant
            0 <= k <= keys@.len(),
            spec_key_lookup(keys@, addr) == spec_key_lookup(keys@.skip(k as int), addr),
        decreases keys@.len() - k,
    {
        proof {
            assert(keys@.skip(k as int)[0] == keys@[k as int]);
            assert(keys@.skip(k as int).drop_first() =~= keys@.skip(k as int + 1));
        }
        let e = keys[k];
        if e.0 == addr {
            return Some(e.1);
        }
        k += 1;
    }
    proof {
        assert(keys@.skip(keys@.len() as int) =~= Seq::<(u64, u64)>::empty());
    }
    None
}

/// Validates a validator-set-update vote extension issued at the epoch
/// inside it, against the chain view and the chain's last known epoch.
///
/// The checks run in order and stop at the first failure, so a stale or
/// malformed extension is diagnosed without any signature work. The epoch
/// counter must have a successor for the next-epoch snapshot lookup.
pub fn validate_valset_upd_vext(view: &ChainView, ext: &SignedVext, last_epoch: u64) -> (r: Result<
    (),
    VoteExtensionError,
>)
    requires
        last_epoch < u64::MAX,
    ensures
        r == spec_validate(*view, *ext, last_epoch),
{
    if !view.has_committed_blocks {
        return Err(VoteExtensionError::UnexpectedBlockHeight);
    }
    let signing_epoch = ext.data.signing_epoch;
    if signing_epoch > last_epoch {
        return Err(VoteExtensionError::UnexpectedEpoch);
    }
    let next_epoch = signing_epoch + 1;
    proof {
        lemma_find_view_epoch_char(view.epochs@, next_epoch);
    }
    let entry_idx = find_view_epoch_index(&view.epochs, next_epoch);
    let seen = match entry_idx {
        Some(ei) => view.epochs[ei].valset_upd_seen,
        None => false,
    };
    proof {
        assert(seen == spec_valset_upd_seen(*view, next_epoch));
    }
    if seen {
        return Err(VoteExtensionError::ValsetUpdProofAvailable);
    }
    let ghost consg = spec_consensus_at(*view, next_epoch);
    let ghost m = ext.data.voting_powers.entries@;
    match entry_idx {
        Some(ei) => {
            let cons = &view.epochs[ei].consensus_validators;
            proof {
                assert(consg == cons@);
                assert(consg.skip(0) =~= consg);
            }
            let n = cons.len();
            let mut k: usize = 0;
            while k < n
                invariant
                    0 <= k <= n,
                    n == cons@.len(),
                    cons@ == consg,
                    m == ext.data.voting_powers.entries@,
                    view.has_committed_blocks,
                    ext.data.signing_epoch <= last_epoch,
                    last_epoch < u64::MAX,
                    next_epoch == ext.data.signing_epoch + 1,
                    !spec_valset_upd_seen(*view, next_epoch),
                    consg == spec_consensus_at(*view, next_epoch),
                    spec_check_powers(consg, m) == spec_check_powers(consg.skip(k as int), m),
                decreases n - k,
            {
                let cv = cons[k];
                proof {
                    assert(consg.skip(k as int)[0] == consg[k as int]);
                    assert(consg.skip(k as int).drop_first() =~= consg.skip(k as int + 1));
                }
                match ext.data.voting_powers.get(&cv.addr_book) {
                    None => {
                        proof {
                            assert(spec_check_powers(consg, m) == Some(
                                VoteExtensionError::ValidatorMissingFromExtension,
                            ));
                        }
                        return Err(VoteExtensionError::ValidatorMissingFromExtension);
                    },
                    Some(p) => {
                        if p != cv.power {
                            proof {
                                assert(spec_check_powers(consg, m) == Some(
                                    VoteExtensionError::DivergesFromStorage,
                                ));
                            }
                            return Err(VoteExtensionError::DivergesFromStorage);
                        }
                    },
                }
                k += 1;
            }
            proof {
                assert(consg.skip(n as int) =~= Seq::<ConsensusValidator>::empty());
                assert(spec_check_powers(consg, m) is None);
            }
            if cons.len() != ext.data.voting_powers.len() {
                return Err(VoteExtensionError::ExtraValidatorsInExtension);
            }
            proof {
                assert(consg.len() == m.len());
            }
        },
        None => {
            proof {
                assert(consg =~= Seq::<ConsensusValidator>::empty());
                assert(spec_check_powers(consg, m) is None);
            }
            if ext.data.voting_powers.len() != 0 {
                return Err(VoteExtensionError::ExtraValidatorsInExtension);
            }
            proof {
                assert(consg.len() == m.len());
            }
        },
    }
    proof {
        lemma_find_view_epoch_char(view.epochs@, signing_epoch);
    }
    let pk_opt = match find_view_epoch_index(&view.epochs, signing_epoch) {
        Some(si) => find_key(&view.epochs[si].hot_keys, ext.data.validator_addr),
        None => None,
    };
    proof {
        assert(pk_opt == spec_hot_key_of(*view, signing_epoch, ext.data.validator_addr));
    }
    match pk_opt {
        None => Err(VoteExtensionError::PubKeyNotInStorage),
        Some(pk) => {
            if verify_signature(pk, &ext.data, &ext.sig) {
                Ok(())
            } else {
                Err(VoteExtensionError::VerifySigFailed)
            }
        },
    }
}

/// Validation is a pure function of the extension, the chain's last epoch,
/// and the chain view: identical inputs always yield the identical result.
pub proof fn lemma_validation_deterministic(
    view1: ChainView,
    ext1: SignedVext,
    last1: u64,
    view2: ChainView,
    ext2: SignedVext,
    last2: u64,
)
    requires
        view1 == view2,
        ext1 == ext2,
        last1 == last2,
    ensures
        spec_validate(view1, ext1, last1) == spec_validate(view2, ext2, last2),
{
}

/// An extension issued for an epoch greater than the chain's last known
/// epoch is rejected as `UnexpectedEpoch` — whatever the rest of the
/// extension holds, so before any signature check runs.
pub proof fn lemma_future_epoch_rejected(view: ChainView, ext: SignedVext, last_epoch: u64)
    requires
        view.has_committed_blocks,
        ext.data.signing_epoch > last_epoch,
    ensures
        spec_validate(view, ext, last_epoch) == Err::<(), _>(VoteExtensionError::UnexpectedEpoch),
{
}

/// An extension targeting an epoch whose validator-set-update proof already
/// exists is rejected as stale.
pub proof fn lemma_stale_extension_rejected(view: ChainView, ext: SignedVext, last_epoch: u64)
    requires
        view.has_committed_blocks,
        ext.data.signing_epoch <= last_epoch,
        spec_valset_upd_seen(view, (ext.data.signing_epoch + 1) as u64),
    ensures
        spec_validate(view, ext, last_epoch) == Err::<(), _>(
            VoteExtensionError::ValsetUpdProofAvailable,
        ),
{
}

/// An extension that claims every snapshot validator's power exactly but
/// lists strictly more validators than the snapshot has is rejected as
/// claiming a superset.
pub proof fn lemma_superset_rejected(view: ChainView, ext: SignedVext, last_epoch: u64)
    requires
        view.has_committed_blocks,
        ext.data.signing_epoch <= last_epoch,
        !spec_valset_upd_seen(view, (ext.data.signing_epoch + 1) as u64),
        spec_check_powers(
            spec_consensus_at(view, (ext.data.signing_epoch + 1) as u64),
            ext.data.voting_powers.entries@,
        ) is None,
        ext.data.voting_powers.entries@.len() > spec_consensus_at(
            view,
            (ext.data.signing_epoch + 1) as u64,
        ).len(),
    ensures
        spec_validate(view, ext, last_epoch) == Err::<(), _>(
            VoteExtensionError::ExtraValidatorsInExtension,
        ),
{
}

/// Walking the snapshot in order, the first entry whose claimed power
/// differs from storage fails the per-entry check as diverging.
pub proof fn lemma_check_powers_diverging(
    cons: Seq<ConsensusValidator>,
    m: Seq<(EthAddrBook, u64)>,
    k: int,
)
    requires
        0 <= k < cons.len(),
        forall|j: int| 0 <= j < k ==> spec_get(m, #[trigger] cons[j].addr_book) == Some(
            cons[j].power,
        ),
        spec_get(m, cons[k].addr_book) is Some,
        spec_get(m, cons[k].addr_book) != Some(cons[k].power),
    ensures
        spec_check_powers(cons, m) == Some(VoteExtensionError::DivergesFromStorage),
    decreases k,
{
    if k > 0 {
        assert(cons.drop_first()[k - 1] == cons[k]);
        assert(forall|j: int| 0 <= j < k - 1 ==> cons.drop_first()[j] == cons[j + 1]);
        lemma_check_powers_diverging(cons.drop_first(), m, k - 1);
    }
}

/// An extension whose claim for some snapshot validator differs from the
/// stored power — every earlier snapshot entry matching exactly — is
/// rejected as diverging from storage.
pub proof fn lemma_diverging_power_rejected(
    view: ChainView,
    ext: SignedVext,
    last_epoch: u64,
    k: int,
)
    requires
        view.has_committed_blocks,
        ext.data.signing_epoch <= last_epoch,
        !spec_valset_upd_seen(view, (ext.data.signing_epoch + 1) as u64),
        ({
            let cons = spec_consensus_at(view, (ext.data.signing_epoch + 1) as u64);
            let m = ext.data.voting_powers.entries@;
            &&& 0 <= k < cons.len()
            &&& forall|j: int| 0 <= j < k ==> spec_get(m, #[trigger] cons[j].addr_book) == Some(
                cons[j].power,
            )
            &&& spec_get(m, cons[k].addr_book) is Some
            &&& spec_get(m, cons[k].addr_book) != Some(cons[k].power)
        }),
    ensures
        spec_validate(view, ext, last_epoch) == Err::<(), _>(
            VoteExtensionError::DivergesFromStorage,
        ),
{
    let cons = spec_consensus_at(view, (ext.data.signing_epoch + 1) as u64);
    let m = ext.data.voting_powers.entries@;
    lemma_check_powers_diverging(cons, m, k);
}

} // verus!
