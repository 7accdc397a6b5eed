//! The ledger's data model: assets, outputs, transactions, blocks, together
//! with the mathematical views that every contract in the crate speaks of.
use vstd::prelude::*;

use crate::crypto::{PublicKey, Signature};
use crate::hashing::Hash256;

verus! {

#[derive(Debug, Clone)]
pub struct BlockHeader {
    pub parent_hash: Hash256,
    pub state_root: Hash256,
    pub tx_root: Hash256,
    pub height: u64,
    pub timestamp: u64,
}

#[derive(Debug)]
pub struct Block {
    pub header: BlockHeader,
    pub transactions: Vec<Transaction>,
    pub proposer_public_key: PublicKey,
    pub signature: Signature,
}

#[derive(Debug, Clone, Copy, PartialEq, Eq, Structural)]
pub enum AssetKind {
    Fungible,
    NonFungible,
    SemiFungible,
}

/// Identifies an asset; derived from its definition and the chain id.
#[derive(Debug, Clone, Copy, PartialEq, Eq)]
pub struct AssetId(pub Hash256);

/// Immutable description of an asset, fixed at creation.
#[derive(Debug, Clone, Copy, PartialEq, Eq)]
pub struct AssetDefinition {
    pub issuer_script_hash: Hash256,
    pub metadata_root: Hash256,
    pub max_supply: Option<u128>,
    pub decimals: u8,
    pub kind: AssetKind,
}

/// An amount of one asset attached to an output.
#[derive(Debug, Clone, Copy, PartialEq, Eq)]
pub struct AssetAmount {
    pub asset_id: AssetId,
    pub amount: u128,
}

/// A spendable output: a commitment to its authorization script, the assets
/// it carries, and an optional metadata commitment.
#[derive(Debug, Clone, PartialEq, Eq)]
pub struct Output {
    pub owner_script_hash: Hash256,
    pub assets: Vec<AssetAmount>,
    pub metadata_hash: Option<Hash256>,
}

/// Mathematical value of an [`Output`].
#[verifier::ext_equal]
pub struct OutputView {
    pub owner_script_hash: Hash256,
    pub assets: Seq<AssetAmount>,
    pub metadata_hash: Option<Hash256>,
}

impl View for Output {
    type V = OutputView;

    open spec fn view(&self) -> OutputView {
        OutputView {
            owner_script_hash: self.owner_script_hash,
            assets: self.assets@,
            metadata_hash: self.metadata_hash,
        }
    }
}

/// Reference to a previously recorded output.
#[derive(Debug, Clone, Copy, PartialEq, Eq)]
pub struct TransactionInput {
    pub tx_id: Hash256,
    pub index: u32,
}

#[derive(Debug, Clone, Copy, PartialEq, Eq)]
pub enum TransactionKind {
    Transfer,
    CreateAsset { definition: AssetDefinition, initial_supply: u128 },
}

#[derive(Debug, Clone, PartialEq, Eq)]
pub struct TransactionCore {
    pub kind: TransactionKind,
    pub inputs: Vec<TransactionInput>,
    pub outputs: Vec<Output>,
}

/// Mathematical value of a [`TransactionCore`].
#[verifier::ext_equal]
pub struct TransactionCoreView {
    pub kind: TransactionKind,
    pub inputs: Seq<TransactionInput>,
    pub outputs: Seq<OutputView>,
}

impl View for TransactionCore {
    type V = TransactionCoreView;

    open spec fn view(&self) -> TransactionCoreView {
        TransactionCoreView {
            kind: self.kind,
            inputs: self.inputs@,
            outputs: Seq::new(self.outputs@.len(), |i: int| self.outputs@[i]@),
        }
    }
}

/// Per-input opaque witness blobs; decoded lazily during validation.
#[derive(Debug, Clone, PartialEq, Eq)]
pub struct TransactionWitness {
    pub inputs: Vec<Vec<u8>>,
}

impl View for TransactionWitness {
    type V = Seq<Seq<u8>>;

    open spec fn view(&self) -> Seq<Seq<u8>> {
        Seq::new(self.inputs@.len(), |i: int| self.inputs@[i]@)
    }
}

impl Default for TransactionWitness {
    fn default() -> (r: Self)
        ensures
            r@.len() == 0,
    {
        TransactionWitness { inputs: Vec::new() }
    }
}

#[derive(Debug, Clone, PartialEq, Eq)]
pub struct Transaction {
    pub core: TransactionCore,
    pub witness: TransactionWitness,
}

/// Mathematical value of a [`Transaction`].
#[verifier::ext_equal]
pub struct TransactionView {
    pub core: TransactionCoreView,
    pub witness: Seq<Seq<u8>>,
}

impl View for Transaction {
    type V = TransactionView;

    open spec fn view(&self) -> TransactionView {
        TransactionView { core: self.core@, witness: self.witness@ }
    }
}

/// Sighash mode flags; currently always zero.
#[derive(Debug, Clone, Copy, PartialEq, Eq, Structural)]
pub struct SighashFlags(pub u32);

impl Default for SighashFlags {
    fn default() -> (r: Self)
        ensures
            r == SighashFlags(0u32),
    {
        SighashFlags(0)
    }
}

/// Domain separator prefixed to every asset-id preimage: the ASCII bytes of
/// "QCOIN_ASSET_ID_V1".
pub open spec fn spec_asset_id_domain() -> Seq<u8> {
    seq![
        81u8,
        67u8,
        79u8,
        73u8,
        78u8,
        95u8,
        65u8,
        83u8,
        83u8,
        69u8,
        84u8,
        95u8,
        73u8,
        68u8,
        95u8,
        86u8,
        49u8,
    ]
}

/// Domain separator prefixed to every sighash preimage: the ASCII bytes of
/// "QCOIN_SIGHASH_V1".
pub open spec fn spec_sighash_domain() -> Seq<u8> {
    seq![
        81u8,
        67u8,
        79u8,
        73u8,
        78u8,
        95u8,
        83u8,
        73u8,
        71u8,
        72u8,
        65u8,
        83u8,
        72u8,
        95u8,
        86u8,
        49u8,
    ]
}

fn push_asset_id_domain(out: &mut Vec<u8>)
    ensures
        final(out)@ == old(out)@ + spec_asset_id_domain(),
{
    out.push(81u8);
    out.push(67u8);
    out.push(79u8);
    out.push(73u8);
    out.push(78u8);
    out.push(95u8);
    out.push(65u8);
    out.push(83u8);
    out.push(83u8);
    out.push(69u8);
    out.push(84u8);
    out.push(95u8);
    out.push(73u8);
    out.push(68u8);
    out.push(95u8);
    out.push(86u8);
    out.push(49u8);
    proof {
        assert(final(out)@ =~= old(out)@ + spec_asset_id_domain());
    }
}

fn push_sighash_domain(out: &mut Vec<u8>)
    ensures
        final(out)@ == old(out)@ + spec_sighash_domain(),
{
    out.push(81u8);
    out.push(67u8);
    out.push(79u8);
    out.push(73u8);
    out.push(78u8);
    out.push(95u8);
    out.push(83u8);
    out.push(73u8);
    out.push(71u8);
    out.push(72u8);
    out.push(65u8);
    out.push(83u8);
    out.push(72u8);
    out.push(95u8);
    out.push(86u8);
    out.push(49u8);
    proof {
        assert(final(out)@ =~= old(out)@ + spec_sighash_domain());
    }
}

/// The digest committing to an asset definition under one chain id.
pub open spec fn spec_derive_asset_id(definition: AssetDefinition, chain_id: u32) -> Seq<u8> {
    crate::hashing::spec_content_hash(
        spec_asset_id_domain() + vstd::bytes::spec_u32_to_le_bytes(chain_id)
            + crate::codec::spec_encode_asset_definition(definition),
    )
}

/// Derives the globally unique id of an asset from its definition and the
/// chain id, behind a fixed domain separator.
pub fn derive_asset_id(definition: &AssetDefinition, chain_id: u32) -> (r: AssetId)
    ensures
        r.0@ == spec_derive_asset_id(*definition, chain_id),
{
    let mut preimage: Vec<u8> = Vec::new();
    push_asset_id_domain(&mut preimage);
    let chain_bytes = vstd::bytes::u32_to_le_bytes(chain_id);
    crate::codec::push_bytes(&mut preimage, chain_bytes.as_slice());
    crate::codec::encode_asset_definition_into(definition, &mut preimage);
    proof {
        assert(preimage@ =~= spec_asset_id_domain() + vstd::bytes::spec_u32_to_le_bytes(chain_id)
            + crate::codec::spec_encode_asset_definition(*definition));
    }
    AssetId(crate::hashing::hash_bytes(preimage.as_slice()))
}

/// The id of a transaction: the digest of its canonically encoded core.
/// The witness is excluded.
pub open spec fn spec_tx_id(core: TransactionCoreView) -> Seq<u8> {
    crate::hashing::spec_content_hash(crate::codec::spec_encode_tx_core(core))
}

/// The digest a signature over one input authorizes: it binds the
/// transaction core, the spent output, the input position, the authorizing
/// script's hash and the chain id, behind a fixed domain separator.
pub open spec fn spec_sighash(
    core: TransactionCoreView,
    input_index: int,
    prev_output: OutputView,
    script_hash: Hash256,
    chain_id: u32,
    flags: u32,
) -> Seq<u8> {
    crate::hashing::spec_content_hash(
        spec_sighash_domain() + vstd::bytes::spec_u32_to_le_bytes(chain_id)
            + crate::codec::spec_encode_tx_core(core) + crate::codec::spec_encode_output(
            prev_output,
        ) + vstd::bytes::spec_u64_to_le_bytes(input_index as u64) + script_hash@
            + vstd::bytes::spec_u32_to_le_bytes(flags),
    )
}

impl TransactionCore {
    pub fn tx_id(&self) -> (r: Hash256)
        requires
            crate::codec::tx_core_encodable(self@),
        ensures
            r@ == spec_tx_id(self@),
    {
        let serialized = crate::codec::encode_tx_core(self);
        crate::hashing::hash_bytes(serialized.as_slice())
    }
}

impl Transaction {
    pub fn tx_id(&self) -> (r: Hash256)
        requires
            crate::codec::tx_core_encodable(self.core@),
        ensures
            r@ == spec_tx_id(self.core@),
    {
        self.core.tx_id()
    }

    pub fn sighash(
        &self,
        input_index: usize,
        prev_output: &Output,
        script_hash: Hash256,
        chain_id: u32,
        flags: SighashFlags,
    ) -> (r: Hash256)
        requires
            crate::codec::tx_core_encodable(self.core@),
            crate::codec::output_encodable(prev_output@),
            input_index <= u64::MAX,
        ensures
            r@ == spec_sighash(
                self.core@,
                input_index as int,
                prev_output@,
                script_hash,
                chain_id,
                flags.0,
            ),
    {
        let mut preimage: Vec<u8> = Vec::new();
        push_sighash_domain(&mut preimage);
        let chain_bytes = vstd::bytes::u32_to_le_bytes(chain_id);
        crate::codec::push_bytes(&mut preimage, chain_bytes.as_slice());
        crate::codec::encode_tx_core_into(&self.core, &mut preimage);
        crate::codec::encode_output_into(prev_output, &mut preimage);
        let index_bytes = vstd::bytes::u64_to_le_bytes(input_index as u64);
        crate::codec::push_bytes(&mut preimage, index_bytes.as_slice());
        crate::codec::encode_hash(&script_hash, &mut preimage);
        let flag_bytes = vstd::bytes::u32_to_le_bytes(flags.0);
        crate::codec::push_bytes(&mut preimage, flag_bytes.as_slice());
        proof {
            assert(preimage@ =~= spec_sighash_domain() + vstd::bytes::spec_u32_to_le_bytes(chain_id)
                + crate::codec::spec_encode_tx_core(self.core@) + crate::codec::spec_encode_output(
                prev_output@,
            ) + vstd::bytes::spec_u64_to_le_bytes(input_index as u64) + script_hash@
                + vstd::bytes::spec_u32_to_le_bytes(flags.0));
        }
        crate::hashing::hash_bytes(preimage.as_slice())
    }
}

/// Builds an asset definition and the transaction that creates it, minting
/// the whole initial supply to one destination output.
pub fn create_asset_transaction(
    issuer_script_hash: Hash256,
    kind: AssetKind,
    metadata_root: Hash256,
    max_supply: Option<u128>,
    decimals: u8,
    initial_supply: u128,
    destination_script_hash: Hash256,
    chain_id: u32,
) -> (r: (AssetDefinition, Transaction))
    ensures
        r.0 == (AssetDefinition { issuer_script_hash, metadata_root, max_supply, decimals, kind }),
        r.1@.core.kind == (TransactionKind::CreateAsset { definition: r.0, initial_supply }),
        r.1@.core.inputs.len() == 0,
        r.1@.core.outputs.len() == 1,
        r.1@.core.outputs[0].owner_script_hash == destination_script_hash,
        r.1@.core.outputs[0].assets.len() == 1,
        r.1@.core.outputs[0].assets[0].asset_id.0@ == spec_derive_asset_id(r.0, chain_id),
        r.1@.core.outputs[0].assets[0].amount == initial_supply,
        r.1@.core.outputs[0].metadata_hash is None,
        r.1@.witness.len() == 0,
{
    let definition = AssetDefinition { issuer_script_hash, metadata_root, max_supply, decimals, kind };
    let asset_id = derive_asset_id(&definition, chain_id);
    let mut assets: Vec<AssetAmount> = Vec::new();
    assets.push(AssetAmount { asset_id, amount: initial_supply });
    let mut outputs: Vec<Output> = Vec::new();
    outputs.push(Output {
        owner_script_hash: destination_script_hash,
        assets,
        metadata_hash: None,
    });
    let transaction = Transaction {
        core: TransactionCore {
            kind: TransactionKind::CreateAsset { definition, initial_supply },
            inputs: Vec::new(),
            outputs,
        },
        witness: TransactionWitness::default(),
    };
    (definition, transaction)
}

/// Equality of input references, byte for byte.
pub fn input_eq(a: &TransactionInput, b: &TransactionInput) -> (r: bool)
    ensures
        r == (*a == *b),
{
    let r = crate::hashing::hash_eq(&a.tx_id, &b.tx_id) && a.index == b.index;
    proof {
        if a.tx_id@ == b.tx_id@ && a.index == b.index {
            assert(a.tx_id =~= b.tx_id);
        } else {
            assert(*a != *b);
        }
    }
    r
}

/// Equality of asset ids, byte for byte.
pub fn asset_id_eq(a: &AssetId, b: &AssetId) -> (r: bool)
    ensures
        r == (*a == *b),
        r == (a.0@ == b.0@),
{
    let r = crate::hashing::hash_eq(&a.0, &b.0);
    proof {
        if a.0@ == b.0@ {
            assert(a.0 =~= b.0);
        } else {
            assert(*a != *b);
        }
    }
    r
}

/// A deep copy of an output, with the same mathematical value.
pub fn copy_output(o: &Output) -> (r: Output)
    ensures
        r@ == o@,
{
    let mut assets: Vec<AssetAmount> = Vec::new();
    let mut i: usize = 0;
    while i < o.assets.len()
        invariant
            0 <= i <= o.assets@.len(),
            assets@ == o.assets@.take(i as int),
        decreases o.assets@.len() - i,
    {
        assets.push(o.assets[i]);
        proof {
            assert(o.assets@.take(i + 1) =~= o.assets@.take(i as int).push(o.assets@[i as int]));
        }
        i = i + 1;
    }
    proof {
        assert(assets@ =~= o.assets@);
    }
    let r = Output {
        owner_script_hash: o.owner_script_hash,
        assets,
        metadata_hash: o.metadata_hash,
    };
    proof {
        assert(r@ =~= o@);
    }
    r
}

/// A deep copy of a byte vector, with the same mathematical value.
pub fn copy_bytes(b: &Vec<u8>) -> (r: Vec<u8>)
    ensures
        r@ == b@,
{
    let mut out: Vec<u8> = Vec::new();
    let mut i: usize = 0;
    while i < b.len()
        invariant
            0 <= i <= b@.len(),
            out@ == b@.take(i as int),
        decreases b@.len() - i,
    {
        out.push(b[i]);
        proof {
            assert(b@.take(i + 1) =~= b@.take(i as int).push(b@[i as int]));
        }
        i = i + 1;
    }
    proof {
        assert(out@ =~= b@);
    }
    out
}

/// A deep copy of a transaction, with the same mathematical value.
pub fn copy_transaction(t: &Transaction) -> (r: Transaction)
    ensures
        r@ == t@,
{
    let mut inputs: Vec<TransactionInput> = Vec::new();
    let mut i: usize = 0;
    while i < t.core.inputs.len()
        invariant
            0 <= i <= t.core.inputs@.len(),
            inputs@ == t.core.inputs@.take(i as int),
        decreases t.core.inputs@.len() - i,
    {
        inputs.push(t.core.inputs[i]);
        proof {
            assert(t.core.inputs@.take(i + 1) =~= t.core.inputs@.take(i as int).push(
                t.core.inputs@[i as int],
            ));
        }
        i = i + 1;
    }
    proof {
        assert(inputs@ =~= t.core.inputs@);
    }
    let mut outputs: Vec<Output> = Vec::new();
    let mut j: usize = 0;
    while j < t.core.outputs.len()
        invariant
            0 <= j <= t.core.outputs@.len(),
            outputs@.len() == j,
            forall|k: int| 0 <= k < j ==> outputs@[k]@ == t.core.outputs@[k]@,
        decreases t.core.outputs@.len() - j,
    {
        let o = copy_output(&t.core.outputs[j]);
        outputs.push(o);
        j = j + 1;
    }
    let mut witness: Vec<Vec<u8>> = Vec::new();
    let mut k: usize = 0;
    while k < t.witness.inputs.len()
        invariant
            0 <= k <= t.witness.inputs@.len(),
            witness@.len() == k,
            forall|m: int| 0 <= m < k ==> witness@[m]@ == t.witness.inputs@[m]@,
        decreases t.witness.inputs@.len() - k,
    {
        let w = copy_bytes(&t.witness.inputs[k]);
        witness.push(w);
        k = k + 1;
    }
    let r = Transaction {
        core: TransactionCore { kind: t.core.kind, inputs, outputs },
        witness: TransactionWitness { inputs: witness },
    };
    proof {
        assert(r@.core.outputs =~= t@.core.outputs);
        assert(r@.witness =~= t@.witness);
        assert(r@ =~= t@);
    }
    r
}

} // verus!
