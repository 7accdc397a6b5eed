//! The commitments a block-proposal policy needs from the core: the
//! transaction-list root and the state root a transaction sequence would
//! produce, plus the interfaces a consensus engine presents.
use vstd::prelude::*;

use crate::crypto::{
    public_key_eq, spec_private_key_ok, spec_scheme_verify, Dilithium2Scheme, Falcon512Scheme,
    PqSignatureScheme, PrivateKey, PublicKey, PublicKeyView, SignatureSchemeId, SignatureView,
};
use crate::hashing::{hash_bytes, hash_eq, spec_content_hash, Hash256};
use crate::ledger::{spec_apply_txs, spec_root_of_state, ChainState, LedgerError, LedgerState};
use crate::script::ScriptEngine;
use crate::types::{spec_tx_id, Block, BlockHeader, Transaction, TransactionView};

verus! {

#[derive(Debug, Clone, PartialEq, Eq)]
pub enum ConsensusError {
    InvalidBlock,
    SignatureError,
    LedgerFault(LedgerError),
    Other(String),
}

/// A party eligible to propose blocks.
pub trait ValidatorIdentity {
    fn public_key(&self) -> &PublicKey;
}

/// A block-proposal and block-validation policy; consumes the ledger core,
/// never owned by it.
pub trait ConsensusEngine {
    fn propose_block(&self, chain: &ChainState, txs: Vec<Transaction>) -> Result<
        Block,
        ConsensusError,
    >;

    fn validate_block(&self, chain: &ChainState, block: &Block) -> Result<(), ConsensusError>;
}

/// The digest of the concatenated transaction ids.
pub open spec fn spec_tx_root(txs: Seq<TransactionView>) -> Seq<u8> {
    spec_content_hash(
        crate::codec::concat_bytes(Seq::new(txs.len(), |i: int| spec_tx_id(txs[i].core))),
    )
}

/// Commits to an ordered transaction list by hashing the ids in order.
#[verifier::loop_isolation(false)]
pub fn compute_tx_root(txs: &Vec<Transaction>) -> (r: Hash256)
    requires
        forall|i: int|
            0 <= i < txs@.len() ==> crate::codec::tx_core_encodable((#[trigger] txs@[i])@.core),
    ensures
        r@ == spec_tx_root(Seq::new(txs@.len(), |i: int| txs@[i]@)),
{
    let ghost tvs = Seq::new(txs@.len(), |i: int| txs@[i]@);
    let mut preimage: Vec<u8> = Vec::new();
    let mut i: usize = 0;
    while i < txs.len()
        invariant
            0 <= i <= txs@.len(),
            preimage@ == crate::codec::concat_bytes(
                Seq::new(i as nat, |k: int| spec_tx_id(tvs[k].core)),
            ),
        decreases txs@.len() - i,
    {
        let ghost pre = Seq::new(i as nat, |k: int| spec_tx_id(tvs[k].core));
        let tx_id = txs[i].tx_id();
        crate::codec::push_bytes(&mut preimage, tx_id.as_slice());
        proof {
            assert(Seq::new((i + 1) as nat, |k: int| spec_tx_id(tvs[k].core)) =~= pre.push(
                spec_tx_id(tvs[i as int].core),
            ));
            crate::codec::lemma_concat_bytes_push(pre, spec_tx_id(tvs[i as int].core));
            assert(preimage@ =~= crate::codec::concat_bytes(
                Seq::new((i + 1) as nat, |k: int| spec_tx_id(tvs[k].core)),
            ));
        }
        i = i + 1;
    }
    proof {
        assert(Seq::new(txs@.len(), |k: int| spec_tx_id(tvs[k].core)) =~= Seq::new(
            tvs.len(),
            |k: int| spec_tx_id(tvs[k].core),
        ));
    }
    hash_bytes(preimage.as_slice())
}

/// The state root the ledger would have after applying the transactions in
/// order at the given height; the given state is left untouched.
#[verifier::loop_isolation(false)]
pub fn compute_state_root<E: ScriptEngine>(
    ledger: &LedgerState,
    txs: &Vec<Transaction>,
    engine: &E,
    height: u64,
    chain_id: u32,
) -> (r: Result<Hash256, LedgerError>)
    requires
        ledger.wf(),
        forall|i: int|
            0 <= i < txs@.len() ==> crate::codec::tx_core_encodable((#[trigger] txs@[i])@.core),
    ensures
        ({
            let txvs = Seq::new(txs@.len(), |i: int| txs@[i]@);
            match spec_apply_txs(
                *engine,
                ledger.utxos@,
                ledger.assets@,
                txvs,
                height,
                chain_id,
                0,
            ) {
                Err(e) => r == Err::<Hash256, LedgerError>(e),
                Ok((u, a)) => r matches Ok(root) && root@ == spec_root_of_state(u, a),
            }
        }),
{
    let ghost txvs = Seq::new(txs@.len(), |i: int| txs@[i]@);
    let mut working = ledger.clone_state();
    let ghost u0 = working.utxos@;
    let ghost a0 = working.assets@;
    let mut t: usize = 0;
    while t < txs.len()
        invariant
            0 <= t <= txs@.len(),
            working.wf(),
            spec_apply_txs(*engine, u0, a0, txvs, height, chain_id, 0) == spec_apply_txs(
                *engine,
                working.utxos@,
                working.assets@,
                txvs,
                height,
                chain_id,
                t as int,
            ),
        decreases txs@.len() - t,
    {
        let ghost wu = working.utxos@;
        let ghost wa = working.assets@;
        match working.apply_transaction(&txs[t], engine, height, chain_id) {
            Ok(_) => {},
            Err(e) => {
                proof {
                    assert(crate::ledger::spec_apply_transaction(
                        *engine,
                        wu,
                        wa,
                        txvs[t as int],
                        height,
                        chain_id,
                    ) is Err);
                }
                return Err(e);
            },
        }
        t = t + 1;
    }
    let root = working.state_root();
    Ok(root)
}

/// Whether every transaction in the list fits the canonical encoding's
/// 4-byte length fields.
pub fn check_transactions_encodable(txs: &Vec<Transaction>) -> (b: bool)
    ensures
        b == forall|i: int|
            0 <= i < txs@.len() ==> crate::codec::tx_core_encodable((#[trigger] txs@[i])@.core),
{
    let mut i: usize = 0;
    while i < txs.len()
        invariant
            0 <= i <= txs@.len(),
            forall|k: int|
                0 <= k < i ==> crate::codec::tx_core_encodable((#[trigger] txs@[k])@.core),
        decreases txs@.len() - i,
    {
        if !crate::script::check_core_encodable(&txs[i].core) {
            return false;
        }
        i = i + 1;
    }
    true
}

/// Validation of a candidate block against a chain state and a validator
/// roster: height, parent, timestamp, proposer rotation, both commitments,
/// and the header signature, in that order.
pub open spec fn spec_validate_block<E: ScriptEngine>(
    chain: ChainState,
    header: BlockHeader,
    txs: Seq<TransactionView>,
    proposer: PublicKeyView,
    signature: SignatureView,
    validators: Seq<PublicKeyView>,
    engine: E,
) -> Result<(), ConsensusError> {
    if header.height != chain.height + 1 {
        Err(ConsensusError::InvalidBlock)
    } else if header.parent_hash@ != chain.tip_hash@ {
        Err(ConsensusError::InvalidBlock)
    } else if header.timestamp <= chain.last_timestamp {
        Err(ConsensusError::InvalidBlock)
    } else if proposer != validators[((header.height - 1) as int) % (validators.len() as int)] {
        Err(ConsensusError::InvalidBlock)
    } else if header.tx_root@ != spec_tx_root(txs) {
        Err(ConsensusError::InvalidBlock)
    } else {
        match spec_apply_txs(
            engine,
            chain.ledger.utxos@,
            chain.ledger.assets@,
            txs,
            header.height,
            chain.chain_id,
            0,
        ) {
            Err(e) => Err(ConsensusError::LedgerFault(e)),
            Ok((u2, a2)) => if header.state_root@ != spec_root_of_state(u2, a2) {
                Err(ConsensusError::InvalidBlock)
            } else if signature.scheme matches SignatureSchemeId::Unknown(_) {
                Err(ConsensusError::SignatureError)
            } else if spec_scheme_verify(
                signature.scheme,
                proposer,
                crate::codec::spec_encode_block_header(header),
                signature,
            ) is Ok {
                Ok(())
            } else {
                Err(ConsensusError::SignatureError)
            },
        }
    }
}

/// Checks a candidate block: all commitments are recomputed from the chain
/// state and compared, the proposer must be the one the rotation expects,
/// and the header signature must verify under the proposer's key.
pub fn validate_block<E: ScriptEngine>(
    chain: &ChainState,
    block: &Block,
    validators: &Vec<PublicKey>,
    engine: &E,
) -> (r: Result<(), ConsensusError>)
    requires
        chain.wf(),
        validators@.len() > 0,
        forall|i: int|
            0 <= i < block.transactions@.len() ==> crate::codec::tx_core_encodable(
                (#[trigger] block.transactions@[i])@.core,
            ),
    ensures
        r == spec_validate_block(
            *chain,
            block.header,
            Seq::new(block.transactions@.len(), |i: int| block.transactions@[i]@),
            block.proposer_public_key@,
            block.signature@,
            Seq::new(validators@.len(), |i: int| validators@[i]@),
            *engine,
        ),
{
    let ghost txvs = Seq::new(block.transactions@.len(), |i: int| block.transactions@[i]@);
    let ghost vvs = Seq::new(validators@.len(), |i: int| validators@[i]@);
    let next_height = match chain.height.checked_add(1) {
        Some(h) => h,
        None => {
            return Err(ConsensusError::InvalidBlock);
        },
    };
    if block.header.height != next_height {
        return Err(ConsensusError::InvalidBlock);
    }
    if !hash_eq(&block.header.parent_hash, &chain.tip_hash) {
        return Err(ConsensusError::InvalidBlock);
    }
    if block.header.timestamp <= chain.last_timestamp {
        return Err(ConsensusError::InvalidBlock);
    }
    let idx = ((block.header.height - 1) % (validators.len() as u64)) as usize;
    if !public_key_eq(&block.proposer_public_key, &validators[idx]) {
        proof {
            assert(vvs[idx as int] == validators@[idx as int]@);
        }
        return Err(ConsensusError::InvalidBlock);
    }
    proof {
        assert(vvs[idx as int] == validators@[idx as int]@);
    }
    let tx_root = compute_tx_root(&block.transactions);
    if !hash_eq(&tx_root, &block.header.tx_root) {
        return Err(ConsensusError::InvalidBlock);
    }
    let state_root = match compute_state_root(
        &chain.ledger,
        &block.transactions,
        engine,
        block.header.height,
        chain.chain_id,
    ) {
        Ok(root) => root,
        Err(e) => {
            return Err(ConsensusError::LedgerFault(e));
        },
    };
    if !hash_eq(&state_root, &block.header.state_root) {
        return Err(ConsensusError::InvalidBlock);
    }
    let header_bytes = crate::codec::encode_block_header(&block.header);
    let outcome = match block.signature.scheme {
        SignatureSchemeId::Dilithium2 => Dilithium2Scheme.verify(
            &block.proposer_public_key,
            header_bytes.as_slice(),
            &block.signature,
        ),
        SignatureSchemeId::Falcon512 => Falcon512Scheme.verify(
            &block.proposer_public_key,
            header_bytes.as_slice(),
            &block.signature,
        ),
        SignatureSchemeId::Unknown(_) => {
            return Err(ConsensusError::SignatureError);
        },
    };
    match outcome {
        Ok(_) => Ok(()),
        Err(_) => Err(ConsensusError::SignatureError),
    }
}

/// Builds and signs a block at the next height: the header carries the
/// recomputed commitments, the transaction list is embedded unchanged, and
/// the header encoding is signed with the given key.
pub fn build_block<E: ScriptEngine>(
    chain: &ChainState,
    txs: Vec<Transaction>,
    engine: &E,
    timestamp: u64,
    signing_scheme: SignatureSchemeId,
    signing_key: &PrivateKey,
    proposer: &PublicKey,
) -> (r: Result<Block, ConsensusError>)
    requires
        chain.wf(),
        chain.height < u64::MAX,
        forall|i: int|
            0 <= i < txs@.len() ==> crate::codec::tx_core_encodable((#[trigger] txs@[i])@.core),
    ensures
        ({
            let txvs = Seq::new(txs@.len(), |i: int| txs@[i]@);
            let applied = spec_apply_txs(
                *engine,
                chain.ledger.utxos@,
                chain.ledger.assets@,
                txvs,
                (chain.height + 1) as u64,
                chain.chain_id,
                0,
            );
            match r {
                Ok(block) => applied is Ok && block.header.height == chain.height + 1
                    && block.header.parent_hash@ == chain.tip_hash@ && block.header.timestamp
                    == timestamp && block.header.tx_root@ == spec_tx_root(txvs)
                    && block.header.state_root@ == spec_root_of_state(
                    applied->Ok_0.0,
                    applied->Ok_0.1,
                ) && Seq::new(block.transactions@.len(), |i: int| block.transactions@[i]@) == txvs
                    && block.proposer_public_key@ == proposer@ && block.signature@.scheme
                    == signing_scheme && signing_key@.scheme == signing_scheme,
                Err(e) => (applied matches Err(le) && e == ConsensusError::LedgerFault(le)) || (
                applied is Ok && e == ConsensusError::SignatureError && !(signing_key@.scheme
                    == signing_scheme && spec_private_key_ok(
                    signing_scheme,
                    signing_key@.bytes.len(),
                ))),
            }
        }),
{
    let ghost txvs = Seq::new(txs@.len(), |i: int| txs@[i]@);
    let next_height = chain.height + 1;
    let state_root = match compute_state_root(
        &chain.ledger,
        &txs,
        engine,
        next_height,
        chain.chain_id,
    ) {
        Ok(root) => root,
        Err(e) => {
            return Err(ConsensusError::LedgerFault(e));
        },
    };
    let tx_root = compute_tx_root(&txs);
    let header = BlockHeader {
        parent_hash: chain.tip_hash,
        state_root,
        tx_root,
        height: next_height,
        timestamp,
    };
    let header_bytes = crate::codec::encode_block_header(&header);
    let signature = match signing_scheme {
        SignatureSchemeId::Dilithium2 => {
            match Dilithium2Scheme.sign(signing_key, header_bytes.as_slice()) {
                Ok(s) => s,
                Err(_) => {
                    return Err(ConsensusError::SignatureError);
                },
            }
        },
        SignatureSchemeId::Falcon512 => {
            match Falcon512Scheme.sign(signing_key, header_bytes.as_slice()) {
                Ok(s) => s,
                Err(_) => {
                    return Err(ConsensusError::SignatureError);
                },
            }
        },
        SignatureSchemeId::Unknown(_) => {
            return Err(ConsensusError::SignatureError);
        },
    };
    let proposer_copy = PublicKey {
        scheme: proposer.scheme,
        bytes: crate::types::copy_bytes(&proposer.bytes),
    };
    proof {
        assert(proposer_copy@ =~= proposer@);
    }
    let block = Block { header, transactions: txs, proposer_public_key: proposer_copy, signature };
    proof {
        assert(Seq::new(block.transactions@.len(), |i: int| block.transactions@[i]@) =~= txvs);
    }
    Ok(block)
}

} // verus!
