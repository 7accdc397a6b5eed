use qcoin::hashing::Hash256;
use qcoin::ledger::{
    encode_input_witness, ChainState, LedgerError, LedgerState, TrackedOutput, UtxoKey,
};
use qcoin::script::{encode_script, DeterministicScriptEngine, OpCode, Script};
use qcoin::types::{
    create_asset_transaction, derive_asset_id, AssetAmount, AssetDefinition, AssetId, AssetKind,
    Block, BlockHeader, Output, Transaction, TransactionCore, TransactionInput, TransactionKind,
    TransactionWitness,
};

const TEST_CHAIN_ID: u32 = 0;

fn hash_bytes(data: &[u8]) -> Hash256 {
    *blake3::hash(data).as_bytes()
}

fn simple_script() -> Script {
    Script(vec![OpCode::Nop])
}

fn script_hash(script: &Script) -> Hash256 {
    hash_bytes(&encode_script(script))
}

fn build_witness(script: &Script, metadata: Option<Vec<u8>>) -> Vec<u8> {
    encode_input_witness(script, &metadata)
}

fn simple_asset_id() -> AssetId {
    AssetId([1u8; 32])
}

fn simple_output() -> Output {
    utxo_with_metadata(None)
}

fn tracked_at_origin(output: Output) -> TrackedOutput {
    TrackedOutput {
        output,
        created_height: 0,
    }
}

fn simple_utxo() -> TrackedOutput {
    tracked_at_origin(simple_output())
}

fn utxo_with_metadata(metadata: Option<Vec<u8>>) -> Output {
    Output {
        owner_script_hash: script_hash(&simple_script()),
        assets: vec![AssetAmount {
            asset_id: simple_asset_id(),
            amount: 100,
        }],
        metadata_hash: metadata.as_ref().map(|bytes| hash_bytes(bytes)),
    }
}

fn insert_issuer_utxo(ledger: &mut LedgerState, script: &Script, key: UtxoKey) {
    ledger.utxos.insert(
        key,
        TrackedOutput {
            output: Output {
                owner_script_hash: script_hash(script),
                assets: vec![],
                metadata_hash: None,
            },
            created_height: 0,
        },
    );
}

fn build_create_asset_transaction(
    issuer_script: &Script,
    destination_script_hash: Hash256,
    metadata_root: Hash256,
    initial_supply: u128,
    max_supply: Option<u128>,
    decimals: u8,
    chain_id: u32,
    issuer_key: UtxoKey,
) -> (AssetDefinition, Transaction) {
    let issuer_script_hash = script_hash(issuer_script);
    let (definition, mut tx) = create_asset_transaction(
        issuer_script_hash,
        AssetKind::Fungible,
        metadata_root,
        max_supply,
        decimals,
        initial_supply,
        destination_script_hash,
        chain_id,
    );

    tx.core.inputs.push(TransactionInput {
        tx_id: issuer_key.tx_id,
        index: issuer_key.index,
    });
    tx.witness.inputs.push(build_witness(issuer_script, None));

    (definition, tx)
}

#[test]
fn create_asset_transaction_mints_supply_and_is_spendable() {
    let mut ledger = LedgerState::default();
    let asset_script = simple_script();
    let destination_script_hash = script_hash(&asset_script);
    let metadata_root = [22u8; 32];
    let initial_supply = 75;
    let chain_id = 0;

    let issuer_script = simple_script();
    let issuer_utxo_key = UtxoKey {
        tx_id: [1u8; 32],
        index: 0,
    };
    insert_issuer_utxo(&mut ledger, &issuer_script, issuer_utxo_key);

    let (definition, create_tx) = build_create_asset_transaction(
        &issuer_script,
        destination_script_hash,
        metadata_root,
        initial_supply,
        Some(1000),
        2,
        chain_id,
        issuer_utxo_key,
    );

    let engine = DeterministicScriptEngine::default();
    ledger
        .apply_transaction(&create_tx, &engine, 0, chain_id)
        .expect("asset creation should succeed");

    let minted_utxo_key = UtxoKey {
        tx_id: create_tx.tx_id(),
        index: 0,
    };
    let minted_output = ledger
        .utxos
        .get(&minted_utxo_key)
        .expect("minted output should be recorded");
    assert_eq!(
        minted_output.output.owner_script_hash,
        destination_script_hash
    );
    assert_eq!(minted_output.output.assets.len(), 1);
    let minted_asset = &minted_output.output.assets[0];
    let derived_id = derive_asset_id(&definition, chain_id);
    assert_eq!(minted_asset.asset_id, derived_id);
    assert_eq!(minted_asset.amount, initial_supply);
    let minted_assets = minted_output.output.assets.clone();

    let spend_tx = Transaction {
        core: TransactionCore {
            kind: TransactionKind::Transfer,
            inputs: vec![TransactionInput {
                tx_id: minted_utxo_key.tx_id,
                index: minted_utxo_key.index,
            }],
            outputs: vec![Output {
                owner_script_hash: destination_script_hash,
                assets: minted_assets,
                metadata_hash: None,
            }],
        },
        witness: TransactionWitness {
            inputs: vec![build_witness(&asset_script, None)],
        },
    };

    ledger
        .apply_transaction(&spend_tx, &engine, 1, chain_id)
        .expect("spend transaction should succeed");

    assert!(!ledger.utxos.contains_key(&minted_utxo_key));
    let new_utxo_key = UtxoKey {
        tx_id: spend_tx.tx_id(),
        index: 0,
    };
    assert!(ledger.utxos.contains_key(&new_utxo_key));
}

#[test]
fn create_asset_rejects_wrong_asset_id() {
    let mut ledger = LedgerState::default();
    let issuer_script = simple_script();
    let destination_script_hash = script_hash(&simple_script());
    let metadata_root = [1u8; 32];
    let issuer_utxo_key = UtxoKey {
        tx_id: [2u8; 32],
        index: 0,
    };
    insert_issuer_utxo(&mut ledger, &issuer_script, issuer_utxo_key);

    let (definition, mut create_tx) = build_create_asset_transaction(
        &issuer_script,
        destination_script_hash,
        metadata_root,
        10,
        Some(100),
        0,
        TEST_CHAIN_ID,
        issuer_utxo_key,
    );

    create_tx.core.outputs[0].assets[0].asset_id = AssetId([9u8; 32]);

    let engine = DeterministicScriptEngine::default();
    let result = ledger.apply_transaction(&create_tx, &engine, 0, TEST_CHAIN_ID);

    assert!(matches!(
        result,
        Err(LedgerError::AssetConservationViolation)
    ));
    assert!(ledger
        .assets
        .get(&derive_asset_id(&definition, TEST_CHAIN_ID))
        .is_none());
}

#[test]
fn create_asset_rejects_initial_supply_mismatch() {
    let mut ledger = LedgerState::default();
    let issuer_script = simple_script();
    let destination_script_hash = script_hash(&simple_script());
    let metadata_root = [3u8; 32];
    let issuer_utxo_key = UtxoKey {
        tx_id: [4u8; 32],
        index: 0,
    };
    insert_issuer_utxo(&mut ledger, &issuer_script, issuer_utxo_key);

    let (_, mut create_tx) = build_create_asset_transaction(
        &issuer_script,
        destination_script_hash,
        metadata_root,
        10,
        None,
        0,
        TEST_CHAIN_ID,
        issuer_utxo_key,
    );

    create_tx.core.outputs[0].assets[0].amount = 5;

    let engine = DeterministicScriptEngine::default();
    let result = ledger.apply_transaction(&create_tx, &engine, 0, TEST_CHAIN_ID);

    assert!(matches!(
        result,
        Err(LedgerError::AssetConservationViolation)
    ));
}

#[test]
fn create_asset_rejects_additional_asset_minting() {
    let mut ledger = LedgerState::default();
    let issuer_script = simple_script();
    let destination_script_hash = script_hash(&simple_script());
    let metadata_root = [5u8; 32];
    let issuer_utxo_key = UtxoKey {
        tx_id: [6u8; 32],
        index: 0,
    };
    insert_issuer_utxo(&mut ledger, &issuer_script, issuer_utxo_key);

    let (_, mut create_tx) = build_create_asset_transaction(
        &issuer_script,
        destination_script_hash,
        metadata_root,
        10,
        None,
        0,
        TEST_CHAIN_ID,
        issuer_utxo_key,
    );

    create_tx.core.outputs.push(Output {
        owner_script_hash: destination_script_hash,
        assets: vec![AssetAmount {
            asset_id: AssetId([7u8; 32]),
            amount: 1,
        }],
        metadata_hash: None,
    });

    let engine = DeterministicScriptEngine::default();
    let result = ledger.apply_transaction(&create_tx, &engine, 0, TEST_CHAIN_ID);

    assert!(matches!(
        result,
        Err(LedgerError::AssetConservationViolation)
    ));
}

#[test]
fn create_asset_rejects_duplicate_definition() {
    let mut ledger = LedgerState::default();
    let issuer_script = simple_script();
    let destination_script_hash = script_hash(&simple_script());
    let metadata_root = [8u8; 32];
    let issuer_utxo_key = UtxoKey {
        tx_id: [9u8; 32],
        index: 0,
    };
    insert_issuer_utxo(&mut ledger, &issuer_script, issuer_utxo_key);

    let (definition, create_tx) = build_create_asset_transaction(
        &issuer_script,
        destination_script_hash,
        metadata_root,
        10,
        None,
        0,
        TEST_CHAIN_ID,
        issuer_utxo_key,
    );

    let engine = DeterministicScriptEngine::default();
    ledger
        .apply_transaction(&create_tx, &engine, 0, TEST_CHAIN_ID)
        .expect("first asset creation should succeed");

    let mut second_tx = create_tx.clone();
    second_tx.core.inputs.clear();
    second_tx.witness.inputs.clear();

    let result = ledger.apply_transaction(&second_tx, &engine, 0, TEST_CHAIN_ID);

    assert!(matches!(result, Err(LedgerError::AssetAlreadyExists)));
    assert!(ledger
        .assets
        .get(&derive_asset_id(&definition, TEST_CHAIN_ID))
        .is_some());
}

#[test]
fn create_asset_rejects_supply_over_maximum() {
    let mut ledger = LedgerState::default();
    let issuer_script = simple_script();
    let destination_script_hash = script_hash(&simple_script());
    let metadata_root = [10u8; 32];
    let issuer_utxo_key = UtxoKey {
        tx_id: [11u8; 32],
        index: 0,
    };
    insert_issuer_utxo(&mut ledger, &issuer_script, issuer_utxo_key);

    let (_, create_tx) = build_create_asset_transaction(
        &issuer_script,
        destination_script_hash,
        metadata_root,
        20,
        Some(10),
        0,
        TEST_CHAIN_ID,
        issuer_utxo_key,
    );

    let engine = DeterministicScriptEngine::default();
    let result = ledger.apply_transaction(&create_tx, &engine, 0, TEST_CHAIN_ID);

    assert!(matches!(result, Err(LedgerError::MaxSupplyExceeded)));
}

#[test]
fn create_asset_requires_issuer_authorization() {
    let mut ledger = LedgerState::default();
    let destination_script_hash = script_hash(&simple_script());
    let metadata_root = [12u8; 32];
    let issuer_script_hash = [13u8; 32];

    let (definition, create_tx) = create_asset_transaction(
        issuer_script_hash,
        AssetKind::Fungible,
        metadata_root,
        Some(1000),
        0,
        5,
        destination_script_hash,
        TEST_CHAIN_ID,
    );

    let engine = DeterministicScriptEngine::default();
    let result = ledger.apply_transaction(&create_tx, &engine, 0, TEST_CHAIN_ID);

    assert!(matches!(
        result,
        Err(LedgerError::MissingIssuerAuthorization)
    ));
    assert!(ledger
        .assets
        .get(&derive_asset_id(&definition, TEST_CHAIN_ID))
        .is_none());
}

#[test]
fn test_missing_input_fails() {
    let mut ledger = LedgerState::default();
    let tx = Transaction {
        core: TransactionCore {
            kind: TransactionKind::Transfer,
            inputs: vec![TransactionInput {
                tx_id: [9u8; 32],
                index: 0,
            }],
            outputs: vec![],
        },
        witness: TransactionWitness::default(),
    };

    let engine = DeterministicScriptEngine::default();
    let result = ledger.apply_transaction(&tx, &engine, 0, TEST_CHAIN_ID);

    assert!(matches!(result, Err(LedgerError::MissingInput)));
}

#[test]
fn test_asset_conservation_violated() {
    let mut ledger = LedgerState::default();
    let previous_tx_id = [7u8; 32];
    let utxo_key = UtxoKey {
        tx_id: previous_tx_id,
        index: 0,
    };
    ledger.utxos.insert(utxo_key, simple_utxo());

    let spending_tx = Transaction {
        core: TransactionCore {
            kind: TransactionKind::Transfer,
            inputs: vec![TransactionInput {
                tx_id: previous_tx_id,
                index: 0,
            }],
            outputs: vec![Output {
                owner_script_hash: script_hash(&simple_script()),
                assets: vec![AssetAmount {
                    asset_id: simple_asset_id(),
                    amount: 200,
                }],
                metadata_hash: None,
            }],
        },
        witness: TransactionWitness {
            inputs: vec![build_witness(&simple_script(), None)],
        },
    };

    let engine = DeterministicScriptEngine::default();
    let result = ledger.apply_transaction(&spending_tx, &engine, 0, TEST_CHAIN_ID);

    assert!(matches!(
        result,
        Err(LedgerError::AssetConservationViolation)
    ));
}

#[test]
fn test_double_spend_rejected_within_transaction() {
    let mut ledger = LedgerState::default();
    let previous_tx_id = [5u8; 32];
    let utxo_key = UtxoKey {
        tx_id: previous_tx_id,
        index: 0,
    };
    ledger.utxos.insert(utxo_key, simple_utxo());

    let tx = Transaction {
        core: TransactionCore {
            kind: TransactionKind::Transfer,
            inputs: vec![
                TransactionInput {
                    tx_id: previous_tx_id,
                    index: 0,
                },
                TransactionInput {
                    tx_id: previous_tx_id,
                    index: 0,
                },
            ],
            outputs: vec![simple_output()],
        },
        witness: TransactionWitness {
            inputs: vec![
                build_witness(&simple_script(), None),
                build_witness(&simple_script(), None),
            ],
        },
    };

    let engine = DeterministicScriptEngine::default();
    let result = ledger.apply_transaction(&tx, &engine, 0, TEST_CHAIN_ID);

    assert!(matches!(result, Err(LedgerError::DoubleSpend)));
    assert!(ledger.utxos.contains_key(&utxo_key));
}

#[test]
fn test_script_hash_mismatch_rejected() {
    let mut ledger = LedgerState::default();
    let previous_tx_id = [13u8; 32];
    let utxo_key = UtxoKey {
        tx_id: previous_tx_id,
        index: 0,
    };
    ledger.utxos.insert(utxo_key, simple_utxo());

    let incorrect_script = Script(vec![OpCode::Nop, OpCode::Nop]);

    let tx = Transaction {
        core: TransactionCore {
            kind: TransactionKind::Transfer,
            inputs: vec![TransactionInput {
                tx_id: previous_tx_id,
                index: 0,
            }],
            outputs: vec![simple_output()],
        },
        witness: TransactionWitness {
            inputs: vec![build_witness(&incorrect_script, None)],
        },
    };

    let engine = DeterministicScriptEngine::default();
    let result = ledger.apply_transaction(&tx, &engine, 0, TEST_CHAIN_ID);

    assert!(matches!(result, Err(LedgerError::ScriptHashMismatch)));
    assert!(ledger.utxos.contains_key(&utxo_key));
}

#[test]
fn test_metadata_hash_mismatch_rejected() {
    let mut ledger = LedgerState::default();
    let previous_tx_id = [14u8; 32];
    let utxo_key = UtxoKey {
        tx_id: previous_tx_id,
        index: 0,
    };
    let expected_metadata = b"expected".to_vec();
    ledger.utxos.insert(
        utxo_key,
        tracked_at_origin(utxo_with_metadata(Some(expected_metadata.clone()))),
    );

    let tx = Transaction {
        core: TransactionCore {
            kind: TransactionKind::Transfer,
            inputs: vec![TransactionInput {
                tx_id: previous_tx_id,
                index: 0,
            }],
            outputs: vec![simple_output()],
        },
        witness: TransactionWitness {
            inputs: vec![build_witness(&simple_script(), Some(b"different".to_vec()))],
        },
    };

    let engine = DeterministicScriptEngine::default();
    let result = ledger.apply_transaction(&tx, &engine, 0, TEST_CHAIN_ID);

    assert!(matches!(result, Err(LedgerError::MetadataHashMismatch)));
    assert!(ledger.utxos.contains_key(&utxo_key));
}

#[test]
fn test_valid_spend_with_metadata_succeeds() {
    let mut ledger = LedgerState::default();
    let previous_tx_id = [15u8; 32];
    let utxo_key = UtxoKey {
        tx_id: previous_tx_id,
        index: 0,
    };
    let metadata = b"game-asset".to_vec();
    ledger.utxos.insert(
        utxo_key,
        tracked_at_origin(utxo_with_metadata(Some(metadata.clone()))),
    );

    let tx = Transaction {
        core: TransactionCore {
            kind: TransactionKind::Transfer,
            inputs: vec![TransactionInput {
                tx_id: previous_tx_id,
                index: 0,
            }],
            outputs: vec![simple_output()],
        },
        witness: TransactionWitness {
            inputs: vec![build_witness(&simple_script(), Some(metadata))],
        },
    };

    let engine = DeterministicScriptEngine::default();
    ledger
        .apply_transaction(&tx, &engine, 0, TEST_CHAIN_ID)
        .expect("transaction should succeed");

    assert!(!ledger.utxos.contains_key(&utxo_key));
}

#[test]
fn chain_state_apply_block_updates_height_and_tip_hash() {
    let mut chain = ChainState::default();
    let previous_tx_id = [11u8; 32];
    let utxo_key = UtxoKey {
        tx_id: previous_tx_id,
        index: 0,
    };
    chain.ledger.utxos.insert(utxo_key, simple_utxo());

    let spend_tx = Transaction {
        core: TransactionCore {
            kind: TransactionKind::Transfer,
            inputs: vec![TransactionInput {
                tx_id: previous_tx_id,
                index: 0,
            }],
            outputs: vec![simple_output()],
        },
        witness: TransactionWitness {
            inputs: vec![build_witness(&simple_script(), None)],
        },
    };

    let tx_id = spend_tx.tx_id();
    let tx_root = spend_tx.tx_id();
    let block = Block {
        header: BlockHeader {
            parent_hash: chain.tip_hash,
            state_root: [0u8; 32],
            tx_root,
            height: 1,
            timestamp: 42,
        },
        transactions: vec![spend_tx],
        proposer_public_key: qcoin::crypto::PublicKey {
            scheme: qcoin::crypto::SignatureSchemeId::Dilithium2,
            bytes: Vec::new(),
        },
        signature: qcoin::crypto::Signature {
            scheme: qcoin::crypto::SignatureSchemeId::Dilithium2,
            bytes: Vec::new(),
        },
    };

    let expected_tip_hash = {
        let serialized = qcoin::codec::encode_block_header(&block.header);
        *blake3::hash(&serialized).as_bytes()
    };

    let engine = DeterministicScriptEngine::default();
    chain
        .apply_block(&block, &engine)
        .expect("block application should succeed");

    assert_eq!(chain.height, 1);
    assert_eq!(chain.tip_hash, expected_tip_hash);
    assert!(!chain.ledger.utxos.contains_key(&utxo_key));
    let new_utxo = UtxoKey { tx_id, index: 0 };
    assert!(chain.ledger.utxos.contains_key(&new_utxo));
}

#[test]
fn missing_witness_is_rejected() {
    let mut ledger = LedgerState::default();
    let utxo_key = UtxoKey {
        tx_id: [16u8; 32],
        index: 0,
    };
    ledger.utxos.insert(utxo_key, simple_utxo());

    let tx = Transaction {
        core: TransactionCore {
            kind: TransactionKind::Transfer,
            inputs: vec![TransactionInput {
                tx_id: [16u8; 32],
                index: 0,
            }],
            outputs: vec![simple_output()],
        },
        witness: TransactionWitness::default(),
    };

    let engine = DeterministicScriptEngine::default();
    let result = ledger.apply_transaction(&tx, &engine, 0, TEST_CHAIN_ID);
    assert!(matches!(result, Err(LedgerError::MissingWitness)));
}

#[test]
fn undecodable_witness_is_rejected() {
    let mut ledger = LedgerState::default();
    let utxo_key = UtxoKey {
        tx_id: [17u8; 32],
        index: 0,
    };
    ledger.utxos.insert(utxo_key, simple_utxo());

    let tx = Transaction {
        core: TransactionCore {
            kind: TransactionKind::Transfer,
            inputs: vec![TransactionInput {
                tx_id: [17u8; 32],
                index: 0,
            }],
            outputs: vec![simple_output()],
        },
        witness: TransactionWitness {
            inputs: vec![vec![255, 255, 255]],
        },
    };

    let engine = DeterministicScriptEngine::default();
    let result = ledger.apply_transaction(&tx, &engine, 0, TEST_CHAIN_ID);
    assert!(matches!(result, Err(LedgerError::InvalidWitness)));
}

#[test]
fn failing_script_rejects_the_transaction() {
    let mut ledger = LedgerState::default();
    // lock the output behind an absolute timelock at height 100
    let locked_script = Script(vec![
        OpCode::PushBytes(100u64.to_le_bytes().to_vec()),
        OpCode::CheckTimeLock,
    ]);
    let utxo_key = UtxoKey {
        tx_id: [18u8; 32],
        index: 0,
    };
    ledger.utxos.insert(
        utxo_key,
        TrackedOutput {
            output: Output {
                owner_script_hash: script_hash(&locked_script),
                assets: vec![AssetAmount {
                    asset_id: simple_asset_id(),
                    amount: 100,
                }],
                metadata_hash: None,
            },
            created_height: 0,
        },
    );

    let tx = Transaction {
        core: TransactionCore {
            kind: TransactionKind::Transfer,
            inputs: vec![TransactionInput {
                tx_id: [18u8; 32],
                index: 0,
            }],
            outputs: vec![simple_output()],
        },
        witness: TransactionWitness {
            inputs: vec![build_witness(&locked_script, None)],
        },
    };

    let engine = DeterministicScriptEngine::default();
    // the chain is still at height 5, so the timelock fails
    let result = ledger.apply_transaction(&tx, &engine, 5, TEST_CHAIN_ID);
    assert!(matches!(result, Err(LedgerError::ScriptFailed)));
    assert!(ledger.utxos.contains_key(&utxo_key));
}

#[test]
fn state_root_is_independent_of_insertion_order() {
    let key_a = UtxoKey {
        tx_id: [40u8; 32],
        index: 0,
    };
    let key_b = UtxoKey {
        tx_id: [41u8; 32],
        index: 3,
    };

    let mut first = LedgerState::default();
    first.utxos.insert(key_a, simple_utxo());
    first.utxos.insert(key_b, tracked_at_origin(utxo_with_metadata(Some(b"m".to_vec()))));

    let mut second = LedgerState::default();
    second
        .utxos
        .insert(key_b, tracked_at_origin(utxo_with_metadata(Some(b"m".to_vec()))));
    second.utxos.insert(key_a, simple_utxo());

    assert_eq!(first.state_root(), second.state_root());
}

#[test]
fn tx_root_changes_when_a_transaction_byte_changes() {
    let tx = Transaction {
        core: TransactionCore {
            kind: TransactionKind::Transfer,
            inputs: vec![],
            outputs: vec![simple_output()],
        },
        witness: TransactionWitness::default(),
    };
    let txs = vec![tx.clone()];
    let original_root = qcoin::consensus::compute_tx_root(&txs);

    let mut mutated = tx;
    mutated.core.outputs[0].owner_script_hash[0] ^= 1;
    let mutated_root = qcoin::consensus::compute_tx_root(&vec![mutated]);

    assert_ne!(original_root, mutated_root);
    // re-validating the mutated list against the original root fails
    assert!(mutated_root != original_root);
}

#[test]
fn witness_encoding_roundtrips() {
    let script = Script(vec![
        OpCode::PushBytes(vec![1, 2, 3]),
        OpCode::CheckHashLock,
        OpCode::Nop,
    ]);
    let metadata = Some(b"metadata".to_vec());
    let bytes = encode_input_witness(&script, &metadata);
    let (decoded_script, decoded_metadata) =
        qcoin::ledger::decode_input_witness(&bytes).expect("witness should decode");
    assert_eq!(decoded_script, script);
    assert_eq!(decoded_metadata, metadata);

    let bytes = encode_input_witness(&script, &None);
    let (decoded_script, decoded_metadata) =
        qcoin::ledger::decode_input_witness(&bytes).expect("witness should decode");
    assert_eq!(decoded_script, script);
    assert_eq!(decoded_metadata, None);
}

#[test]
fn output_encoding_is_byte_exact() {
    let output = Output {
        owner_script_hash: [7u8; 32],
        assets: vec![AssetAmount {
            asset_id: AssetId([9u8; 32]),
            amount: 258,
        }],
        metadata_hash: None,
    };
    let encoded = qcoin::codec::encode_output(&output);

    let mut expected: Vec<u8> = Vec::new();
    expected.extend_from_slice(&[7u8; 32]);
    expected.extend_from_slice(&1u32.to_le_bytes());
    expected.extend_from_slice(&[9u8; 32]);
    expected.extend_from_slice(&258u128.to_le_bytes());
    expected.push(0);

    assert_eq!(encoded, expected);
}

#[test]
fn content_hash_differs_from_its_input() {
    let a = qcoin::hashing::hash_bytes(b"one");
    let b = qcoin::hashing::hash_bytes(b"two");
    assert_ne!(a, b);
    assert_eq!(a, *blake3::hash(b"one").as_bytes());
}

#[test]
fn totals_overflow_is_a_conservation_violation() {
    let mut totals = qcoin::ledger::TotalsMap::new();
    let first = AssetAmount {
        asset_id: simple_asset_id(),
        amount: u128::MAX,
    };
    let second = AssetAmount {
        asset_id: simple_asset_id(),
        amount: 1,
    };
    assert!(qcoin::ledger::accumulate_asset(&mut totals, &first));
    assert!(!qcoin::ledger::accumulate_asset(&mut totals, &second));

    // a transaction whose inputs overflow an asset total is rejected
    let mut ledger = LedgerState::default();
    let big = Output {
        owner_script_hash: script_hash(&simple_script()),
        assets: vec![AssetAmount {
            asset_id: simple_asset_id(),
            amount: u128::MAX,
        }],
        metadata_hash: None,
    };
    ledger.utxos.insert(
        UtxoKey {
            tx_id: [50u8; 32],
            index: 0,
        },
        tracked_at_origin(big.clone()),
    );
    ledger.utxos.insert(
        UtxoKey {
            tx_id: [50u8; 32],
            index: 1,
        },
        tracked_at_origin(big),
    );

    let tx = Transaction {
        core: TransactionCore {
            kind: TransactionKind::Transfer,
            inputs: vec![
                TransactionInput {
                    tx_id: [50u8; 32],
                    index: 0,
                },
                TransactionInput {
                    tx_id: [50u8; 32],
                    index: 1,
                },
            ],
            outputs: vec![],
        },
        witness: TransactionWitness {
            inputs: vec![
                build_witness(&simple_script(), None),
                build_witness(&simple_script(), None),
            ],
        },
    };
    let engine = DeterministicScriptEngine::default();
    let result = ledger.apply_transaction(&tx, &engine, 0, TEST_CHAIN_ID);
    assert!(matches!(
        result,
        Err(LedgerError::AssetConservationViolation)
    ));
}
