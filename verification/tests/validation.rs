use epoch_settlement::validation::{
    validate_valset_upd_vext, ChainView, ConsensusValidator, EpochEntry, EthAddrBook, EthAddress,
    SignedVext, Vext, VoteExtensionError, VotingPowersMap,
};

const VALIDATOR_ADDR: u64 = 7;
const HOT_KEY: u64 = 42;

fn book(hot: u8, cold: u8) -> EthAddrBook {
    EthAddrBook {
        hot_key_addr: EthAddress([hot; 20]),
        cold_key_addr: EthAddress([cold; 20]),
    }
}

/// A chain with one consensus validator of the given power in epoch 1 (the
/// successor of signing epoch 0) and the validator's hot key in epoch 0.
fn single_validator_view(power: u64) -> ChainView {
    ChainView {
        has_committed_blocks: true,
        epochs: vec![
            EpochEntry {
                epoch: 0,
                consensus_validators: Vec::new(),
                hot_keys: vec![(VALIDATOR_ADDR, HOT_KEY)],
                valset_upd_seen: false,
            },
            EpochEntry {
                epoch: 1,
                consensus_validators: vec![ConsensusValidator {
                    addr_book: book(1, 2),
                    validator_addr: VALIDATOR_ADDR,
                    power,
                }],
                hot_keys: Vec::new(),
                valset_upd_seen: false,
            },
        ],
    }
}

fn signed_ext(map: VotingPowersMap, signing_epoch: u64, key: u64) -> SignedVext {
    Vext {
        voting_powers: map,
        signing_epoch,
        validator_addr: VALIDATOR_ADDR,
    }
    .sign(key)
}

#[test]
fn test_superset_valsetupd_rejected() {
    let validator_stake: u64 = 20;
    let view = single_validator_view(validator_stake);

    let voting_powers = {
        let mut map = VotingPowersMap::new();
        map.insert(book(1, 2), validator_stake);
        map.insert(
            EthAddrBook {
                hot_key_addr: EthAddress([0; 20]),
                cold_key_addr: EthAddress([0xff; 20]),
            },
            validator_stake,
        );
        map
    };

    let ext = signed_ext(voting_powers, 0, HOT_KEY);
    let result = validate_valset_upd_vext(&view, &ext, 0);
    assert!(matches!(
        result,
        Err(VoteExtensionError::ExtraValidatorsInExtension)
    ));
}

#[test]
fn test_valid_extension_accepted() {
    let view = single_validator_view(100);
    let mut map = VotingPowersMap::new();
    map.insert(book(1, 2), 100);
    let ext = signed_ext(map, 0, HOT_KEY);
    assert!(matches!(validate_valset_upd_vext(&view, &ext, 0), Ok(())));
}

#[test]
fn test_wrong_power_diverges_from_storage() {
    let view = single_validator_view(100);
    let mut map = VotingPowersMap::new();
    map.insert(book(1, 2), 99);
    let ext = signed_ext(map, 0, HOT_KEY);
    assert!(matches!(
        validate_valset_upd_vext(&view, &ext, 0),
        Err(VoteExtensionError::DivergesFromStorage)
    ));
}

#[test]
fn test_missing_validator_in_extension() {
    let view = single_validator_view(100);
    let map = VotingPowersMap::new();
    let ext = signed_ext(map, 0, HOT_KEY);
    assert!(matches!(
        validate_valset_upd_vext(&view, &ext, 0),
        Err(VoteExtensionError::ValidatorMissingFromExtension)
    ));
}

#[test]
fn test_future_epoch_rejected_before_signature_checks() {
    // correctly signed, but attesting to an epoch beyond the chain's last
    let view = single_validator_view(100);
    let mut map = VotingPowersMap::new();
    map.insert(book(1, 2), 100);
    let ext = signed_ext(map, 5, HOT_KEY);
    assert!(matches!(
        validate_valset_upd_vext(&view, &ext, 3),
        Err(VoteExtensionError::UnexpectedEpoch)
    ));
}

#[test]
fn test_existing_proof_rejected_as_stale() {
    let mut view = single_validator_view(100);
    view.epochs[1].valset_upd_seen = true;
    let mut map = VotingPowersMap::new();
    map.insert(book(1, 2), 100);
    let ext = signed_ext(map, 0, HOT_KEY);
    assert!(matches!(
        validate_valset_upd_vext(&view, &ext, 0),
        Err(VoteExtensionError::ValsetUpdProofAvailable)
    ));
}

#[test]
fn test_genesis_extension_rejected() {
    let mut view = single_validator_view(100);
    view.has_committed_blocks = false;
    let mut map = VotingPowersMap::new();
    map.insert(book(1, 2), 100);
    let ext = signed_ext(map, 0, HOT_KEY);
    assert!(matches!(
        validate_valset_upd_vext(&view, &ext, 0),
        Err(VoteExtensionError::UnexpectedBlockHeight)
    ));
}

#[test]
fn test_unknown_signer_has_no_pubkey() {
    let mut view = single_validator_view(100);
    view.epochs[0].hot_keys = Vec::new();
    let mut map = VotingPowersMap::new();
    map.insert(book(1, 2), 100);
    let ext = signed_ext(map, 0, HOT_KEY);
    assert!(matches!(
        validate_valset_upd_vext(&view, &ext, 0),
        Err(VoteExtensionError::PubKeyNotInStorage)
    ));
}

#[test]
fn test_wrong_key_signature_rejected() {
    let view = single_validator_view(100);
    let mut map = VotingPowersMap::new();
    map.insert(book(1, 2), 100);
    let ext = signed_ext(map, 0, HOT_KEY + 1);
    assert!(matches!(
        validate_valset_upd_vext(&view, &ext, 0),
        Err(VoteExtensionError::VerifySigFailed)
    ));
}

#[test]
fn test_signature_must_cover_the_sent_payload() {
    // sign one payload, send another under the same signature
    let view = single_validator_view(100);
    let mut signed_map = VotingPowersMap::new();
    signed_map.insert(book(1, 2), 1);
    let signed = signed_ext(signed_map, 0, HOT_KEY);

    let mut sent_map = VotingPowersMap::new();
    sent_map.insert(book(1, 2), 100);
    let mut forged = signed_ext(sent_map, 0, HOT_KEY);
    forged.sig = signed.sig;

    assert!(matches!(
        validate_valset_upd_vext(&view, &forged, 0),
        Err(VoteExtensionError::VerifySigFailed)
    ));
}

#[test]
fn test_validation_is_deterministic() {
    let view = single_validator_view(100);
    let mut map = VotingPowersMap::new();
    map.insert(book(1, 2), 99);
    let ext = signed_ext(map, 0, HOT_KEY);
    let first = validate_valset_upd_vext(&view, &ext, 0);
    let second = validate_valset_upd_vext(&view, &ext, 0);
    assert_eq!(first, second);
}

#[test]
fn test_insert_replaces_existing_key() {
    let mut map = VotingPowersMap::new();
    map.insert(book(1, 2), 5);
    map.insert(book(1, 2), 8);
    assert_eq!(map.len(), 1);
    assert_eq!(map.get(&book(1, 2)), Some(8));
    assert_eq!(map.get(&book(3, 4)), None);
}
