//! Canonical consensus encoding: one deterministic byte sequence per logical
//! value, little-endian fixed-width integers, 4-byte length prefixes, 1-byte
//! presence tags. Every hash and signed message in the system is computed
//! over these bytes.
use vstd::prelude::*;

use vstd::bytes::{
    spec_u128_to_le_bytes, spec_u32_to_le_bytes, spec_u64_to_le_bytes, u128_to_le_bytes,
    u32_to_le_bytes, u64_to_le_bytes,
};

use crate::hashing::Hash256;
use crate::types::{
    AssetAmount, AssetDefinition, AssetKind, BlockHeader, Output, OutputView, TransactionCore,
    TransactionCoreView, TransactionInput, TransactionKind,
};

verus! {

/// Concatenation of a sequence of byte strings.
pub open spec fn concat_bytes(s: Seq<Seq<u8>>) -> Seq<u8>
    decreases s.len(),
{
    if s.len() == 0 {
        Seq::empty()
    } else {
        s[0] + concat_bytes(s.drop_first())
    }
}

pub proof fn lemma_concat_bytes_push(s: Seq<Seq<u8>>, x: Seq<u8>)
    ensures
        concat_bytes(s.push(x)) == concat_bytes(s) + x,
    decreases s.len(),
{
    if s.len() == 0 {
        assert(s.push(x).drop_first() =~= Seq::<Seq<u8>>::empty());
        assert(concat_bytes(Seq::<Seq<u8>>::empty()) == Seq::<u8>::empty());
        assert(s.push(x)[0] == x);
        assert(concat_bytes(s.push(x)) == x + Seq::<u8>::empty());
        assert(concat_bytes(s.push(x)) =~= concat_bytes(s) + x);
    } else {
        assert(s.push(x).drop_first() =~= s.drop_first().push(x));
        lemma_concat_bytes_push(s.drop_first(), x);
        assert(concat_bytes(s.push(x)) =~= concat_bytes(s) + x);
    }
}

pub open spec fn spec_encode_len(len: nat) -> Seq<u8> {
    spec_u32_to_le_bytes(len as u32)
}

pub open spec fn spec_encode_input(input: TransactionInput) -> Seq<u8> {
    input.tx_id@ + spec_u32_to_le_bytes(input.index)
}

pub open spec fn spec_encode_asset_amount(asset: AssetAmount) -> Seq<u8> {
    asset.asset_id.0@ + spec_u128_to_le_bytes(asset.amount)
}

pub open spec fn spec_asset_kind_byte(kind: AssetKind) -> u8 {
    match kind {
        AssetKind::Fungible => 0u8,
        AssetKind::NonFungible => 1u8,
        AssetKind::SemiFungible => 2u8,
    }
}

pub open spec fn spec_encode_option_u128(v: Option<u128>) -> Seq<u8> {
    match v {
        Some(x) => seq![1u8] + spec_u128_to_le_bytes(x),
        None => seq![0u8],
    }
}

pub open spec fn spec_encode_asset_definition(d: AssetDefinition) -> Seq<u8> {
    d.issuer_script_hash@ + seq![spec_asset_kind_byte(d.kind)] + d.metadata_root@
        + spec_encode_option_u128(d.max_supply) + seq![d.decimals]
}

pub open spec fn spec_encode_amounts(s: Seq<AssetAmount>) -> Seq<u8> {
    concat_bytes(Seq::new(s.len(), |i: int| spec_encode_asset_amount(s[i])))
}

pub open spec fn spec_encode_output(o: OutputView) -> Seq<u8> {
    o.owner_script_hash@ + spec_encode_len(o.assets.len()) + spec_encode_amounts(o.assets)
        + (match o.metadata_hash {
        Some(h) => seq![1u8] + h@,
        None => seq![0u8],
    })
}

pub open spec fn spec_tx_kind_byte(kind: TransactionKind) -> u8 {
    match kind {
        TransactionKind::Transfer => 0u8,
        TransactionKind::CreateAsset { .. } => 1u8,
    }
}

pub open spec fn spec_encode_inputs(s: Seq<TransactionInput>) -> Seq<u8> {
    concat_bytes(Seq::new(s.len(), |i: int| spec_encode_input(s[i])))
}

pub open spec fn spec_encode_outputs(s: Seq<OutputView>) -> Seq<u8> {
    concat_bytes(Seq::new(s.len(), |i: int| spec_encode_output(s[i])))
}

pub open spec fn spec_encode_tx_core(c: TransactionCoreView) -> Seq<u8> {
    seq![spec_tx_kind_byte(c.kind)] + spec_encode_len(c.inputs.len()) + spec_encode_inputs(c.inputs)
        + spec_encode_len(c.outputs.len()) + spec_encode_outputs(c.outputs)
        + (match c.kind {
        TransactionKind::CreateAsset { definition, initial_supply } => spec_encode_asset_definition(
            definition,
        ) + spec_u128_to_le_bytes(initial_supply),
        TransactionKind::Transfer => Seq::empty(),
    })
}

pub open spec fn spec_encode_block_header(h: BlockHeader) -> Seq<u8> {
    h.parent_hash@ + h.state_root@ + h.tx_root@ + spec_u64_to_le_bytes(h.height)
        + spec_u64_to_le_bytes(h.timestamp)
}

/// The length prefixes of an output fit their 4-byte fields.
pub open spec fn output_encodable(o: OutputView) -> bool {
    o.assets.len() <= u32::MAX
}

/// The length prefixes of a transaction core fit their 4-byte fields.
pub open spec fn tx_core_encodable(c: TransactionCoreView) -> bool {
    &&& c.inputs.len() <= u32::MAX
    &&& c.outputs.len() <= u32::MAX
    &&& forall|i: int| 0 <= i < c.outputs.len() ==> output_encodable(#[trigger] c.outputs[i])
}

/// Appends a byte slice.
pub fn push_bytes(out: &mut Vec<u8>, data: &[u8])
    ensures
        final(out)@ == old(out)@ + data@,
{
    let mut i: usize = 0;
    while i < data.len()
        invariant
            0 <= i <= data@.len(),
            out@ == old(out)@ + data@.take(i as int),
        decreases data@.len() - i,
    {
        out.push(data[i]);
        proof {
            assert(old(out)@ + data@.take(i + 1) =~= (old(out)@ + data@.take(i as int)).push(
                data@[i as int],
            ));
        }
        i = i + 1;
    }
    proof {
        assert(old(out)@ + data@.take(data@.len() as int) =~= old(out)@ + data@);
    }
}

/// Appends a collection's length as a 4-byte little-endian prefix.
pub fn encode_len(len: usize, out: &mut Vec<u8>)
    requires
        len <= u32::MAX,
    ensures
        final(out)@ == old(out)@ + spec_encode_len(len as nat),
{
    let bytes = u32_to_le_bytes(len as u32);
    push_bytes(out, bytes.as_slice());
}

pub fn encode_hash(hash: &Hash256, out: &mut Vec<u8>)
    ensures
        final(out)@ == old(out)@ + hash@,
{
    push_bytes(out, hash.as_slice());
}

pub fn encode_transaction_input(input: &TransactionInput, out: &mut Vec<u8>)
    ensures
        final(out)@ == old(out)@ + spec_encode_input(*input),
{
    encode_hash(&input.tx_id, out);
    let bytes = u32_to_le_bytes(input.index);
    push_bytes(out, bytes.as_slice());
    proof {
        assert(final(out)@ =~= old(out)@ + spec_encode_input(*input));
    }
}

pub fn encode_asset_amount(asset: &AssetAmount, out: &mut Vec<u8>)
    ensures
        final(out)@ == old(out)@ + spec_encode_asset_amount(*asset),
{
    encode_hash(&asset.asset_id.0, out);
    let bytes = u128_to_le_bytes(asset.amount);
    push_bytes(out, bytes.as_slice());
    proof {
        assert(final(out)@ =~= old(out)@ + spec_encode_asset_amount(*asset));
    }
}

pub fn encode_asset_definition_into(definition: &AssetDefinition, out: &mut Vec<u8>)
    ensures
        final(out)@ == old(out)@ + spec_encode_asset_definition(*definition),
{
    encode_hash(&definition.issuer_script_hash, out);
    match definition.kind {
        AssetKind::Fungible => out.push(0u8),
        AssetKind::NonFungible => out.push(1u8),
        AssetKind::SemiFungible => out.push(2u8),
    }
    encode_hash(&definition.metadata_root, out);
    match definition.max_supply {
        Some(max) => {
            out.push(1u8);
            let bytes = u128_to_le_bytes(max);
            push_bytes(out, bytes.as_slice());
        },
        None => out.push(0u8),
    }
    out.push(definition.decimals);
    proof {
        assert(final(out)@ =~= old(out)@ + spec_encode_asset_definition(*definition));
    }
}

pub fn encode_asset_definition(definition: &AssetDefinition) -> (r: Vec<u8>)
    ensures
        r@ == spec_encode_asset_definition(*definition),
{
    let mut out: Vec<u8> = Vec::new();
    encode_asset_definition_into(definition, &mut out);
    proof {
        assert(out@ =~= spec_encode_asset_definition(*definition));
    }
    out
}

pub fn encode_output_into(output: &Output, out: &mut Vec<u8>)
    requires
        output_encodable(output@),
    ensures
        final(out)@ == old(out)@ + spec_encode_output(output@),
{
    encode_hash(&output.owner_script_hash, out);
    encode_len(output.assets.len(), out);
    let ghost mid = out@;
    let mut i: usize = 0;
    while i < output.assets.len()
        invariant
            0 <= i <= output.assets@.len(),
            out@ == mid + spec_encode_amounts(output.assets@.take(i as int)),
        decreases output.assets@.len() - i,
    {
        let ghost pre = output.assets@.take(i as int);
        encode_asset_amount(&output.assets[i], out);
        proof {
            let f = |j: int| spec_encode_asset_amount(output.assets@.take(i + 1)[j]);
            assert(Seq::new(output.assets@.take(i + 1).len(), f) =~= Seq::new(
                pre.len(),
                |j: int| spec_encode_asset_amount(pre[j]),
            ).push(spec_encode_asset_amount(output.assets@[i as int])));
            lemma_concat_bytes_push(
                Seq::new(pre.len(), |j: int| spec_encode_asset_amount(pre[j])),
                spec_encode_asset_amount(output.assets@[i as int]),
            );
            assert(out@ =~= mid + spec_encode_amounts(output.assets@.take(i + 1)));
        }
        i = i + 1;
    }
    proof {
        assert(output.assets@.take(output.assets@.len() as int) =~= output.assets@);
    }
    match &output.metadata_hash {
        Some(hash) => {
            out.push(1u8);
            encode_hash(hash, out);
        },
        None => out.push(0u8),
    }
    proof {
        assert(final(out)@ =~= old(out)@ + spec_encode_output(output@));
    }
}

pub fn encode_output(output: &Output) -> (r: Vec<u8>)
    requires
        output_encodable(output@),
    ensures
        r@ == spec_encode_output(output@),
{
    let mut out: Vec<u8> = Vec::new();
    encode_output_into(output, &mut out);
    proof {
        assert(out@ =~= spec_encode_output(output@));
    }
    out
}

pub fn encode_tx_core_into(core: &TransactionCore, out: &mut Vec<u8>)
    requires
        tx_core_encodable(core@),
    ensures
        final(out)@ == old(out)@ + spec_encode_tx_core(core@),
{
    match &core.kind {
        TransactionKind::Transfer => out.push(0u8),
        TransactionKind::CreateAsset { .. } => out.push(1u8),
    }
    encode_len(core.inputs.len(), out);
    let ghost mid_in = out@;
    let mut i: usize = 0;
    while i < core.inputs.len()
        invariant
            0 <= i <= core.inputs@.len(),
            out@ == mid_in + spec_encode_inputs(core.inputs@.take(i as int)),
        decreases core.inputs@.len() - i,
    {
        let ghost pre = core.inputs@.take(i as int);
        encode_transaction_input(&core.inputs[i], out);
        proof {
            assert(Seq::new(
                core.inputs@.take(i + 1).len(),
                |j: int| spec_encode_input(core.inputs@.take(i + 1)[j]),
            ) =~= Seq::new(pre.len(), |j: int| spec_encode_input(pre[j])).push(
                spec_encode_input(core.inputs@[i as int]),
            ));
            lemma_concat_bytes_push(
                Seq::new(pre.len(), |j: int| spec_encode_input(pre[j])),
                spec_encode_input(core.inputs@[i as int]),
            );
            assert(out@ =~= mid_in + spec_encode_inputs(core.inputs@.take(i + 1)));
        }
        i = i + 1;
    }
    proof {
        assert(core.inputs@.take(core.inputs@.len() as int) =~= core.inputs@);
    }
    encode_len(core.outputs.len(), out);
    let ghost mid_out = out@;
    let mut j: usize = 0;
    while j < core.outputs.len()
        invariant
            0 <= j <= core.outputs@.len(),
            tx_core_encodable(core@),
            out@ == mid_out + spec_encode_outputs(core@.outputs.take(j as int)),
        decreases core.outputs@.len() - j,
    {
        let ghost pre = core@.outputs.take(j as int);
        assert(output_encodable(core@.outputs[j as int]));
        encode_output_into(&core.outputs[j], out);
        proof {
            assert(core.outputs@[j as int]@ == core@.outputs[j as int]);
            assert(Seq::new(
                core@.outputs.take(j + 1).len(),
                |k: int| spec_encode_output(core@.outputs.take(j + 1)[k]),
            ) =~= Seq::new(pre.len(), |k: int| spec_encode_output(pre[k])).push(
                spec_encode_output(core@.outputs[j as int]),
            ));
            lemma_concat_bytes_push(
                Seq::new(pre.len(), |k: int| spec_encode_output(pre[k])),
                spec_encode_output(core@.outputs[j as int]),
            );
            assert(out@ =~= mid_out + spec_encode_outputs(core@.outputs.take(j + 1)));
        }
        j = j + 1;
    }
    proof {
        assert(core@.outputs.take(core@.outputs.len() as int) =~= core@.outputs);
    }
    if let TransactionKind::CreateAsset { definition, initial_supply } = &core.kind {
        encode_asset_definition_into(definition, out);
        let bytes = u128_to_le_bytes(*initial_supply);
        push_bytes(out, bytes.as_slice());
    }
    proof {
        assert(final(out)@ =~= old(out)@ + spec_encode_tx_core(core@));
    }
}

pub fn encode_tx_core(core: &TransactionCore) -> (r: Vec<u8>)
    requires
        tx_core_encodable(core@),
    ensures
        r@ == spec_encode_tx_core(core@),
{
    let mut out: Vec<u8> = Vec::new();
    encode_tx_core_into(core, &mut out);
    proof {
        assert(out@ =~= spec_encode_tx_core(core@));
    }
    out
}

pub fn encode_block_header(header: &BlockHeader) -> (r: Vec<u8>)
    ensures
        r@ == spec_encode_block_header(*header),
{
    let mut out: Vec<u8> = Vec::new();
    encode_hash(&header.parent_hash, &mut out);
    encode_hash(&header.state_root, &mut out);
    encode_hash(&header.tx_root, &mut out);
    let height_bytes = u64_to_le_bytes(header.height);
    push_bytes(&mut out, height_bytes.as_slice());
    let ts_bytes = u64_to_le_bytes(header.timestamp);
    push_bytes(&mut out, ts_bytes.as_slice());
    proof {
        assert(out@ =~= spec_encode_block_header(*header));
    }
    out
}

} // verus!
