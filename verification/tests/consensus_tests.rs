use qcoin::consensus::{build_block, validate_block, ConsensusError};
use qcoin::crypto::{Dilithium2Scheme, PqSignatureScheme, PrivateKey, PublicKey, SignatureSchemeId};
use qcoin::ledger::ChainState;
use qcoin::script::DeterministicScriptEngine;
use qcoin::types::{Transaction, TransactionCore, TransactionKind, TransactionWitness};

fn keypair() -> (PublicKey, PrivateKey) {
    Dilithium2Scheme.keygen().expect("keygen should succeed")
}

fn empty_transfer() -> Transaction {
    Transaction {
        core: TransactionCore {
            kind: TransactionKind::Transfer,
            inputs: Vec::new(),
            outputs: Vec::new(),
        },
        witness: TransactionWitness::default(),
    }
}

#[test]
fn validate_block_rejects_mutated_transactions() {
    let (pk, sk) = keypair();
    let chain = ChainState::default();
    let engine = DeterministicScriptEngine::default();
    let validators = vec![pk.clone()];

    let tx = empty_transfer();
    let mut block = build_block(
        &chain,
        vec![tx.clone()],
        &engine,
        1,
        SignatureSchemeId::Dilithium2,
        &sk,
        &pk,
    )
    .expect("block should be proposed");

    validate_block(&chain, &block, &validators, &engine)
        .expect("freshly built block should validate");

    block.transactions.push(tx);

    let result = validate_block(&chain, &block, &validators, &engine);
    assert!(matches!(result, Err(ConsensusError::InvalidBlock)));
}

#[test]
fn validate_block_rejects_wrong_parent_hash() {
    let (pk, sk) = keypair();
    let chain = ChainState::default();
    let engine = DeterministicScriptEngine::default();
    let validators = vec![pk.clone()];

    let block = build_block(
        &chain,
        Vec::new(),
        &engine,
        1,
        SignatureSchemeId::Dilithium2,
        &sk,
        &pk,
    )
    .expect("block should build");

    let mut forked_chain = ChainState::default();
    forked_chain.tip_hash = [7u8; 32];

    let result = validate_block(&forked_chain, &block, &validators, &engine);
    assert!(matches!(result, Err(ConsensusError::InvalidBlock)));
}

#[test]
fn validate_block_rejects_bad_signature() {
    let (pk, sk) = keypair();
    let chain = ChainState::default();
    let engine = DeterministicScriptEngine::default();
    let validators = vec![pk.clone()];

    let tx = empty_transfer();
    let mut block = build_block(
        &chain,
        vec![tx],
        &engine,
        1,
        SignatureSchemeId::Dilithium2,
        &sk,
        &pk,
    )
    .expect("block should build");

    if let Some(byte) = block.signature.bytes.first_mut() {
        *byte ^= 0xFF;
    } else {
        block.signature.bytes.push(1);
    }

    let result = validate_block(&chain, &block, &validators, &engine);
    assert!(matches!(result, Err(ConsensusError::SignatureError)));
}

#[test]
fn validate_block_rejects_block_from_unexpected_proposer() {
    let (pk, sk) = keypair();
    let (other_pk, other_sk) = keypair();
    let chain = ChainState::default();
    let engine = DeterministicScriptEngine::default();
    // at height 1 the rotation expects the first validator
    let validators = vec![pk.clone(), other_pk.clone()];

    let block = build_block(
        &chain,
        Vec::new(),
        &engine,
        1,
        SignatureSchemeId::Dilithium2,
        &sk,
        &pk,
    )
    .expect("block should be proposed");

    let mut wrong_proposer_block = build_block(
        &chain,
        Vec::new(),
        &engine,
        1,
        SignatureSchemeId::Dilithium2,
        &other_sk,
        &other_pk,
    )
    .expect("block should be proposed");
    let header_bytes = qcoin::codec::encode_block_header(&wrong_proposer_block.header);
    wrong_proposer_block.signature = Dilithium2Scheme
        .sign(&other_sk, &header_bytes)
        .expect("scheme should exist");

    validate_block(&chain, &block, &validators, &engine)
        .expect("the expected proposer's block should validate");
    let result = validate_block(&chain, &wrong_proposer_block, &validators, &engine);
    assert!(matches!(result, Err(ConsensusError::InvalidBlock)));
}

#[test]
fn validate_block_rejects_tampered_state_root() {
    let (pk, sk) = keypair();
    let chain = ChainState::default();
    let engine = DeterministicScriptEngine::default();
    let validators = vec![pk.clone()];

    let mut tampered = build_block(
        &chain,
        Vec::new(),
        &engine,
        1,
        SignatureSchemeId::Dilithium2,
        &sk,
        &pk,
    )
    .expect("block should be proposed");

    tampered.header.state_root = [9u8; 32];
    let header_bytes = qcoin::codec::encode_block_header(&tampered.header);
    tampered.signature = Dilithium2Scheme
        .sign(&sk, &header_bytes)
        .expect("scheme should exist");

    let result = validate_block(&chain, &tampered, &validators, &engine);
    assert!(matches!(result, Err(ConsensusError::InvalidBlock)));
}
