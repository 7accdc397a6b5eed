//! The gas-metered authorization script virtual machine: opcode set, script
//! encoding and decoding, and a deterministic evaluator whose whole behaviour
//! is pinned by a mathematical interpreter over the instruction sequence.
use vstd::prelude::*;

use crate::crypto::{
    spec_public_key_from_bytes, spec_scheme_verify, spec_signature_from_bytes, PublicKey,
    PublicKeyView, Signature, SignatureSchemeId, SignatureView,
};
use crate::hashing::{spec_content_hash, Hash256};
use crate::types::{
    spec_sighash, Output, OutputView, SighashFlags, Transaction, TransactionCore,
    TransactionCoreView, TransactionInput,
};

verus! {

pub const DEFAULT_MAX_GAS: u64 = 50_000;

pub const DEFAULT_MAX_STACK_ITEMS: usize = 1_024;

pub const DEFAULT_MAX_PUSH_BYTES: usize = 4096;

pub const DEFAULT_MAX_SCRIPT_LEN: usize = 2_048;

pub const OP_BASE_COST: u64 = 10;

pub const OP_SIG_COST: u64 = 5_000;

pub const OP_HASH_COST: u64 = 250;

#[derive(Debug, Clone, PartialEq, Eq)]
pub enum OpCode {
    CheckSig,
    CheckMultiSig { threshold: u8, total: u8 },
    CheckTimeLock,
    CheckRelativeTimeLock,
    CheckHashLock,
    PushBytes(Vec<u8>),
    Nop,
}

/// Mathematical value of an [`OpCode`].
pub enum OpCodeView {
    CheckSig,
    CheckMultiSig { threshold: u8, total: u8 },
    CheckTimeLock,
    CheckRelativeTimeLock,
    CheckHashLock,
    PushBytes(Seq<u8>),
    Nop,
}

impl View for OpCode {
    type V = OpCodeView;

    open spec fn view(&self) -> OpCodeView {
        match self {
            OpCode::CheckSig => OpCodeView::CheckSig,
            OpCode::CheckMultiSig { threshold, total } => OpCodeView::CheckMultiSig {
                threshold: *threshold,
                total: *total,
            },
            OpCode::CheckTimeLock => OpCodeView::CheckTimeLock,
            OpCode::CheckRelativeTimeLock => OpCodeView::CheckRelativeTimeLock,
            OpCode::CheckHashLock => OpCodeView::CheckHashLock,
            OpCode::PushBytes(data) => OpCodeView::PushBytes(data@),
            OpCode::Nop => OpCodeView::Nop,
        }
    }
}

/// An authorization program: an ordered list of opcodes.
#[derive(Debug, Clone, PartialEq, Eq)]
pub struct Script(pub Vec<OpCode>);

impl View for Script {
    type V = Seq<OpCodeView>;

    open spec fn view(&self) -> Seq<OpCodeView> {
        Seq::new(self.0@.len(), |i: int| self.0@[i]@)
    }
}

/// Canonical encoding of one opcode: a 1-byte tag, then its operands.
pub open spec fn spec_encode_opcode(op: OpCodeView) -> Seq<u8> {
    match op {
        OpCodeView::CheckSig => seq![0u8],
        OpCodeView::CheckMultiSig { threshold, total } => seq![1u8, threshold, total],
        OpCodeView::CheckTimeLock => seq![2u8],
        OpCodeView::CheckRelativeTimeLock => seq![3u8],
        OpCodeView::CheckHashLock => seq![4u8],
        OpCodeView::PushBytes(data) => seq![5u8] + vstd::bytes::spec_u32_to_le_bytes(
            data.len() as u32,
        ) + data,
        OpCodeView::Nop => seq![6u8],
    }
}

/// Canonical encoding of a script: a 4-byte opcode count, then the opcodes.
pub open spec fn spec_encode_script(ops: Seq<OpCodeView>) -> Seq<u8> {
    crate::codec::spec_encode_len(ops.len()) + crate::codec::concat_bytes(
        Seq::new(ops.len(), |i: int| spec_encode_opcode(ops[i])),
    )
}

/// The length prefixes of a script fit their 4-byte fields.
pub open spec fn script_encodable(ops: Seq<OpCodeView>) -> bool {
    &&& ops.len() <= u32::MAX
    &&& forall|i: int|
        0 <= i < ops.len() ==> (#[trigger] ops[i] matches OpCodeView::PushBytes(data) ==> data.len()
            <= u32::MAX)
}

pub fn encode_script(script: &Script) -> (r: Vec<u8>)
    requires
        script_encodable(script@),
    ensures
        r@ == spec_encode_script(script@),
{
    let mut out: Vec<u8> = Vec::new();
    crate::codec::encode_len(script.0.len(), &mut out);
    let ghost mid = out@;
    let ghost ops = script@;
    let mut i: usize = 0;
    while i < script.0.len()
        invariant
            0 <= i <= script.0@.len(),
            ops == script@,
            script_encodable(ops),
            ops.len() == script.0@.len(),
            forall|k: int| 0 <= k < ops.len() ==> ops[k] == script.0@[k]@,
            out@ == mid + crate::codec::concat_bytes(
                Seq::new(i as nat, |k: int| spec_encode_opcode(ops[k])),
            ),
        decreases script.0@.len() - i,
    {
        let ghost pre = Seq::new(i as nat, |k: int| spec_encode_opcode(ops[k]));
        match &script.0[i] {
            OpCode::CheckSig => out.push(0u8),
            OpCode::CheckMultiSig { threshold, total } => {
                out.push(1u8);
                out.push(*threshold);
                out.push(*total);
            },
            OpCode::CheckTimeLock => out.push(2u8),
            OpCode::CheckRelativeTimeLock => out.push(3u8),
            OpCode::CheckHashLock => out.push(4u8),
            OpCode::PushBytes(data) => {
                out.push(5u8);
                assert(ops[i as int] matches OpCodeView::PushBytes(d) && d == data@);
                crate::codec::encode_len(data.len(), &mut out);
                crate::codec::push_bytes(&mut out, data.as_slice());
            },
            OpCode::Nop => out.push(6u8),
        }
        proof {
            assert(Seq::new((i + 1) as nat, |k: int| spec_encode_opcode(ops[k])) =~= pre.push(
                spec_encode_opcode(ops[i as int]),
            ));
            crate::codec::lemma_concat_bytes_push(pre, spec_encode_opcode(ops[i as int]));
            assert(out@ =~= mid + crate::codec::concat_bytes(
                Seq::new((i + 1) as nat, |k: int| spec_encode_opcode(ops[k])),
            ));
        }
        i = i + 1;
    }
    proof {
        assert(Seq::new(ops.len(), |k: int| spec_encode_opcode(ops[k])) == Seq::new(ops.len(), |k: int| spec_encode_opcode(ops[k])));
    }
    out
}

/// Parses one opcode at `pos`; yields its value and the position after it.
pub open spec fn spec_decode_op(bytes: Seq<u8>, pos: int) -> Option<(OpCodeView, int)> {
    if pos < 0 || pos >= bytes.len() {
        None
    } else {
        let tag = bytes[pos];
        if tag == 0u8 {
            Some((OpCodeView::CheckSig, pos + 1))
        } else if tag == 1u8 {
            if pos + 3 <= bytes.len() {
                Some(
                    (
                        OpCodeView::CheckMultiSig {
                            threshold: bytes[pos + 1],
                            total: bytes[pos + 2],
                        },
                        pos + 3,
                    ),
                )
            } else {
                None
            }
        } else if tag == 2u8 {
            Some((OpCodeView::CheckTimeLock, pos + 1))
        } else if tag == 3u8 {
            Some((OpCodeView::CheckRelativeTimeLock, pos + 1))
        } else if tag == 4u8 {
            Some((OpCodeView::CheckHashLock, pos + 1))
        } else if tag == 5u8 {
            if pos + 5 <= bytes.len() {
                let len = vstd::bytes::spec_u32_from_le_bytes(bytes.subrange(pos + 1, pos + 5));
                if pos + 5 + len <= bytes.len() {
                    Some((OpCodeView::PushBytes(bytes.subrange(pos + 5, pos + 5 + len)), pos + 5
                        + len))
                } else {
                    None
                }
            } else {
                None
            }
        } else if tag == 6u8 {
            Some((OpCodeView::Nop, pos + 1))
        } else {
            None
        }
    }
}

/// Parses `count` opcodes starting at `pos`, appending to `acc`.
pub open spec fn spec_decode_ops(bytes: Seq<u8>, pos: int, count: int, acc: Seq<OpCodeView>) -> Option<
    (Seq<OpCodeView>, int),
>
    decreases count,
{
    if count <= 0 {
        Some((acc, pos))
    } else {
        match spec_decode_op(bytes, pos) {
            Some((op, next)) => spec_decode_ops(bytes, next, count - 1, acc.push(op)),
            None => None,
        }
    }
}

/// Parses a whole script at `pos`: a 4-byte opcode count, then the opcodes.
pub open spec fn spec_decode_script(bytes: Seq<u8>, pos: int) -> Option<(Seq<OpCodeView>, int)> {
    if pos < 0 || pos + 4 > bytes.len() {
        None
    } else {
        let count = vstd::bytes::spec_u32_from_le_bytes(bytes.subrange(pos, pos + 4));
        spec_decode_ops(bytes, pos + 4, count as int, Seq::empty())
    }
}

/// Parses a script from `bytes` starting at `start`; returns the script and
/// the position after it.
pub fn decode_script(bytes: &[u8], start: usize) -> (r: Option<(Script, usize)>)
    ensures
        match r {
            Some((script, end)) => spec_decode_script(bytes@, start as int) matches Some(p)
                && script@ == p.0 && end == p.1 && start <= end <= bytes@.len()
                && script_encodable(script@),
            None => spec_decode_script(bytes@, start as int) is None,
        },
{
    if start > bytes.len() || bytes.len() - start < 4 {
        return None;
    }
    let count_slice = vstd::slice::slice_subrange(bytes, start, start + 4);
    let count = vstd::bytes::u32_from_le_bytes(count_slice);
    let mut ops: Vec<OpCode> = Vec::new();
    let mut pos: usize = start + 4;
    let mut remaining: u32 = count;
    proof {
        assert(Seq::new(ops@.len(), |k: int| ops@[k]@) =~= Seq::<OpCodeView>::empty());
    }
    while remaining > 0
        invariant
            start + 4 <= pos <= bytes@.len(),
            start + 4 <= bytes@.len(),
            count == vstd::bytes::spec_u32_from_le_bytes(bytes@.subrange(start as int, start + 4)),
            remaining <= count,
            ops@.len() == count - remaining,
            forall|k: int|
                0 <= k < ops@.len() ==> (#[trigger] ops@[k]@ matches OpCodeView::PushBytes(data)
                    ==> data.len() <= u32::MAX),
            spec_decode_ops(bytes@, start + 4, count as int, Seq::empty()) == spec_decode_ops(
                bytes@,
                pos as int,
                remaining as int,
                Seq::new(ops@.len(), |k: int| ops@[k]@),
            ),
        decreases remaining,
    {
        let ghost acc = Seq::new(ops@.len(), |k: int| ops@[k]@);
        let ghost pos0 = pos as int;
        if pos >= bytes.len() {
            proof {
                assert(spec_decode_op(bytes@, pos0) is None);
                assert(spec_decode_ops(bytes@, pos0, remaining as int, acc) is None);
            }
            return None;
        }
        let tag = bytes[pos];
        if tag == 0 {
            ops.push(OpCode::CheckSig);
            pos = pos + 1;
        } else if tag == 1 {
            if bytes.len() - pos < 3 {
                proof {
                    assert(spec_decode_op(bytes@, pos0) is None);
                    assert(spec_decode_ops(bytes@, pos0, remaining as int, acc) is None);
                }
                return None;
            }
            let threshold = bytes[pos + 1];
            let total = bytes[pos + 2];
            ops.push(OpCode::CheckMultiSig { threshold, total });
            pos = pos + 3;
        } else if tag == 2 {
            ops.push(OpCode::CheckTimeLock);
            pos = pos + 1;
        } else if tag == 3 {
            ops.push(OpCode::CheckRelativeTimeLock);
            pos = pos + 1;
        } else if tag == 4 {
            ops.push(OpCode::CheckHashLock);
            pos = pos + 1;
        } else if tag == 5 {
            if bytes.len() - pos < 5 {
                proof {
                    assert(spec_decode_op(bytes@, pos0) is None);
                    assert(spec_decode_ops(bytes@, pos0, remaining as int, acc) is None);
                }
                return None;
            }
            let len_slice = vstd::slice::slice_subrange(bytes, pos + 1, pos + 5);
            let len = vstd::bytes::u32_from_le_bytes(len_slice) as usize;
            if bytes.len() - (pos + 5) < len {
                proof {
                    assert(spec_decode_op(bytes@, pos0) is None);
                    assert(spec_decode_ops(bytes@, pos0, remaining as int, acc) is None);
                }
                return None;
            }
            let data_slice = vstd::slice::slice_subrange(bytes, pos + 5, pos + 5 + len);
            let mut data: Vec<u8> = Vec::new();
            crate::codec::push_bytes(&mut data, data_slice);
            proof {
                assert(data@ =~= bytes@.subrange(pos + 5, pos + 5 + len));
            }
            ops.push(OpCode::PushBytes(data));
            pos = pos + 5 + len;
        } else if tag == 6 {
            ops.push(OpCode::Nop);
            pos = pos + 1;
        } else {
            proof {
                assert(spec_decode_op(bytes@, pos0) is None);
                assert(spec_decode_ops(bytes@, pos0, remaining as int, acc) is None);
            }
            return None;
        }
        proof {
            let newacc = Seq::new(ops@.len(), |k: int| ops@[k]@);
            assert(newacc =~= acc.push(ops@[ops@.len() - 1]@));
            assert(spec_decode_op(bytes@, pos0) == Some((ops@[ops@.len() - 1]@, pos as int)));
        }
        remaining = remaining - 1;
    }
    proof {
        assert(spec_decode_ops(bytes@, pos as int, 0, Seq::new(ops@.len(), |k: int| ops@[k]@))
            == Some((Seq::new(ops@.len(), |k: int| ops@[k]@), pos as int)));
    }
    let script = Script(ops);
    proof {
        assert(script@ =~= Seq::new(script.0@.len(), |k: int| script.0@[k]@));
    }
    Some((script, pos))
}

/// The context one script is evaluated in: the spending transaction, the
/// position of the input being authorized, and the chain binding.
#[derive(Debug)]
pub struct ScriptContext {
    pub tx: Transaction,
    pub input_index: usize,
    pub current_height: Option<u64>,
    pub chain_id: u32,
    pub script_hash: Hash256,
}

/// The reason a script evaluation was rejected.
#[derive(Debug, Clone, Copy, PartialEq, Eq, Structural)]
pub enum EvalFault {
    PushLimitExceeded,
    InvalidPublicKey,
    InvalidSignature,
    SchemeNotRegistered,
    InputIndexOutOfBounds,
    UnresolvedInput,
    UnencodableTransaction,
    UnencodableOutput,
    SignatureVerificationFailed,
    InvalidMultisigThreshold,
    MultisigVerificationFailed,
    TimeLockOperandLength,
    HeightUnavailable,
    TimeLockNotSatisfied,
    RelativeTimeLockOperandLength,
    CreationHeightUnavailable,
    RelativeTimeLockNotSatisfied,
    HashLockOperandLength,
    HashLockMismatch,
}

#[derive(Debug, Clone, Copy, PartialEq, Eq, Structural)]
pub enum ScriptError {
    Evaluation(EvalFault),
    OutOfGas,
    StackUnderflow,
    StackOverflow,
    ScriptTooLarge,
}

/// Limits of one evaluation: gas budget, stack depth, push size, script
/// length.
#[derive(Debug, Clone, Copy, PartialEq, Eq, Structural)]
pub struct VmConfig {
    pub max_gas: u64,
    pub max_stack_items: usize,
    pub max_push_bytes: usize,
    pub max_script_len: usize,
}

impl Default for VmConfig {
    fn default() -> (r: Self)
        ensures
            r == (VmConfig {
                max_gas: DEFAULT_MAX_GAS,
                max_stack_items: DEFAULT_MAX_STACK_ITEMS,
                max_push_bytes: DEFAULT_MAX_PUSH_BYTES,
                max_script_len: DEFAULT_MAX_SCRIPT_LEN,
            }),
    {
        VmConfig {
            max_gas: DEFAULT_MAX_GAS,
            max_stack_items: DEFAULT_MAX_STACK_ITEMS,
            max_push_bytes: DEFAULT_MAX_PUSH_BYTES,
            max_script_len: DEFAULT_MAX_SCRIPT_LEN,
        }
    }
}

#[derive(Debug, Clone, Copy, PartialEq, Eq, Structural)]
pub struct ScriptResult {
    pub gas_consumed: u64,
}

impl Default for ScriptResult {
    fn default() -> (r: Self)
        ensures
            r == (ScriptResult { gas_consumed: 0u64 }),
    {
        ScriptResult { gas_consumed: 0 }
    }
}

/// A spent output as the host resolves it: the output itself and the height
/// it was created at, where known.
#[derive(Debug, Clone)]
pub struct ResolvedInput {
    pub output: Output,
    pub created_height: Option<u64>,
}

/// Mathematical value of a [`ResolvedInput`].
#[verifier::ext_equal]
pub struct ResolvedInputView {
    pub output: OutputView,
    pub created_height: Option<u64>,
}

impl View for ResolvedInput {
    type V = ResolvedInputView;

    open spec fn view(&self) -> ResolvedInputView {
        ResolvedInputView { output: self.output@, created_height: self.created_height }
    }
}

/// Supplies the chain facts a script may consult: the current height and the
/// resolution of inputs to their recorded outputs.
pub trait ScriptHost {
    spec fn spec_height(&self) -> Option<u64>;

    spec fn spec_utxos(&self) -> Map<TransactionInput, ResolvedInputView>;

    fn current_height(&self) -> (r: Option<u64>)
        ensures
            r == self.spec_height(),
    ;

    fn input_utxo(&self, input: &TransactionInput) -> (r: Option<ResolvedInput>)
        ensures
            match r {
                Some(ri) => self.spec_utxos().dom().contains(*input) && ri@ == self.spec_utxos()[
                    *input
                ],
                None => !self.spec_utxos().dom().contains(*input),
            },
    ;
}

/// Evaluates one authorization script in one spending context.
pub trait ScriptEngine: Sized {
    /// What this engine's evaluation returns: gas consumed on success, the
    /// error otherwise.
    spec fn spec_eval(
        &self,
        ops: Seq<OpCodeView>,
        tx_core: TransactionCoreView,
        input_index: usize,
        current_height: Option<u64>,
        chain_id: u32,
        script_hash: Hash256,
        host_height: Option<u64>,
        host_utxos: Map<TransactionInput, ResolvedInputView>,
    ) -> Result<u64, ScriptError>;

    fn eval<H: ScriptHost>(&self, script: &Script, ctx: &ScriptContext, host: &H) -> (r: Result<
        ScriptResult,
        ScriptError,
    >)
        ensures
            ({
                let s = self.spec_eval(
                    script@,
                    ctx.tx.core@,
                    ctx.input_index,
                    ctx.current_height,
                    ctx.chain_id,
                    ctx.script_hash,
                    host.spec_height(),
                    host.spec_utxos(),
                );
                match r {
                    Ok(res) => s matches Ok(g) && res.gas_consumed == g,
                    Err(e) => s == Err::<u64, ScriptError>(e),
                }
            }),
    ;
}

/// The gas charged for one opcode, before it runs: pushes pay per byte,
/// signature checks pay a flat high cost scaled by the multisig threshold.
/// A push beyond the byte limit is rejected outright.
pub open spec fn spec_gas_cost(op: OpCodeView, max_push_bytes: usize) -> Result<u64, ScriptError> {
    match op {
        OpCodeView::Nop => Ok(1u64),
        OpCodeView::PushBytes(data) => if data.len() > max_push_bytes {
            Err(ScriptError::Evaluation(EvalFault::PushLimitExceeded))
        } else if OP_BASE_COST + data.len() > u64::MAX {
            Ok(u64::MAX)
        } else {
            Ok((OP_BASE_COST + data.len()) as u64)
        },
        OpCodeView::CheckSig => Ok(OP_SIG_COST),
        OpCodeView::CheckMultiSig { threshold, .. } => if threshold == 0 {
            Ok(OP_SIG_COST)
        } else {
            Ok((OP_SIG_COST * threshold) as u64)
        },
        OpCodeView::CheckTimeLock => Ok(OP_BASE_COST),
        OpCodeView::CheckRelativeTimeLock => Ok(OP_BASE_COST),
        OpCodeView::CheckHashLock => Ok(OP_HASH_COST),
    }
}

pub fn gas_cost(op: &OpCode, max_push_bytes: usize) -> (r: Result<u64, ScriptError>)
    ensures
        r == spec_gas_cost(op@, max_push_bytes),
{
    match op {
        OpCode::Nop => Ok(1),
        OpCode::PushBytes(data) => {
            if data.len() > max_push_bytes {
                Err(ScriptError::Evaluation(EvalFault::PushLimitExceeded))
            } else {
                let len64 = data.len() as u64;
                if len64 > u64::MAX - OP_BASE_COST {
                    Ok(u64::MAX)
                } else {
                    Ok(OP_BASE_COST + len64)
                }
            }
        },
        OpCode::CheckSig => Ok(OP_SIG_COST),
        OpCode::CheckMultiSig { threshold, .. } => {
            if *threshold == 0 {
                Ok(OP_SIG_COST)
            } else {
                Ok(OP_SIG_COST * (*threshold as u64))
            }
        },
        OpCode::CheckTimeLock => Ok(OP_BASE_COST),
        OpCode::CheckRelativeTimeLock => Ok(OP_BASE_COST),
        OpCode::CheckHashLock => Ok(OP_HASH_COST),
    }
}

/// Charges gas against a fixed budget; refuses to go below zero.
struct GasMeter {
    remaining: u64,
    limit: u64,
}

impl GasMeter {
    fn new(limit: u64) -> (r: Self)
        ensures
            r.remaining == limit,
            r.limit == limit,
    {
        Self { remaining: limit, limit }
    }

    fn consume(&mut self, amount: u64) -> (r: Result<(), ScriptError>)
        ensures
            final(self).limit == old(self).limit,
            amount > old(self).remaining ==> r == Err::<(), ScriptError>(ScriptError::OutOfGas)
                && final(self).remaining == old(self).remaining,
            amount <= old(self).remaining ==> r == Ok::<(), ScriptError>(())
                && final(self).remaining == old(self).remaining - amount,
    {
        if amount > self.remaining {
            return Err(ScriptError::OutOfGas);
        }
        self.remaining = self.remaining - amount;
        Ok(())
    }

    fn used(&self) -> (r: u64)
        requires
            self.remaining <= self.limit,
        ensures
            r == self.limit - self.remaining,
    {
        self.limit - self.remaining
    }
}

/// The operand stack: byte strings, bounded in depth.
struct Stack {
    items: Vec<Vec<u8>>,
    max_items: usize,
}

impl View for Stack {
    type V = Seq<Seq<u8>>;

    closed spec fn view(&self) -> Seq<Seq<u8>> {
        Seq::new(self.items@.len(), |i: int| self.items@[i]@)
    }
}

impl Stack {
    fn new(max_items: usize) -> (r: Self)
        ensures
            r@.len() == 0,
            r.max_items == max_items,
    {
        Self { items: Vec::new(), max_items }
    }

    fn push(&mut self, value: Vec<u8>) -> (r: Result<(), ScriptError>)
        ensures
            final(self).max_items == old(self).max_items,
            old(self)@.len() >= old(self).max_items ==> r == Err::<(), ScriptError>(
                ScriptError::StackOverflow,
            ) && final(self)@ == old(self)@,
            old(self)@.len() < old(self).max_items ==> r == Ok::<(), ScriptError>(())
                && final(self)@ == old(self)@.push(value@),
    {
        if self.items.len() >= self.max_items {
            return Err(ScriptError::StackOverflow);
        }
        self.items.push(value);
        proof {
            assert(self@ =~= old(self)@.push(value@));
        }
        Ok(())
    }

    fn pop(&mut self) -> (r: Result<Vec<u8>, ScriptError>)
        ensures
            final(self).max_items == old(self).max_items,
            old(self)@.len() == 0 ==> r == Err::<Vec<u8>, ScriptError>(ScriptError::StackUnderflow)
                && final(self)@ == old(self)@,
            old(self)@.len() > 0 ==> (r matches Ok(v) && v@ == old(self)@.last() && final(self)@
                == old(self)@.drop_last()),
    {
        match self.items.pop() {
            Some(v) => {
                proof {
                    assert(self@ =~= old(self)@.drop_last());
                }
                Ok(v)
            },
            None => Err(ScriptError::StackUnderflow),
        }
    }
}

/// The greater of the host-reported and context-supplied current heights;
/// whichever is present when only one is.
pub open spec fn spec_effective_height(host_height: Option<u64>, ctx_height: Option<u64>) -> Option<
    u64,
> {
    match (host_height, ctx_height) {
        (Some(h), Some(c)) => Some(
            if h >= c {
                h
            } else {
                c
            },
        ),
        (Some(h), None) => Some(h),
        (None, c) => c,
    }
}

/// The previous output an input spends, as the host resolves it.
pub open spec fn spec_resolve_prev(
    core: TransactionCoreView,
    input_index: usize,
    host_utxos: Map<TransactionInput, ResolvedInputView>,
) -> Result<ResolvedInputView, ScriptError> {
    if input_index >= core.inputs.len() {
        Err(ScriptError::Evaluation(EvalFault::InputIndexOutOfBounds))
    } else if !host_utxos.dom().contains(core.inputs[input_index as int]) {
        Err(ScriptError::Evaluation(EvalFault::UnresolvedInput))
    } else {
        Ok(host_utxos[core.inputs[input_index as int]])
    }
}

/// The sighash of the spending context, after the sanity checks that make it
/// computable: a resolvable input and encodable structures.
pub open spec fn spec_context_sighash(
    core: TransactionCoreView,
    input_index: usize,
    chain_id: u32,
    script_hash: Hash256,
    host_utxos: Map<TransactionInput, ResolvedInputView>,
) -> Result<Seq<u8>, ScriptError> {
    match spec_resolve_prev(core, input_index, host_utxos) {
        Err(e) => Err(e),
        Ok(prev) => if !crate::codec::tx_core_encodable(core) {
            Err(ScriptError::Evaluation(EvalFault::UnencodableTransaction))
        } else if !crate::codec::output_encodable(prev.output) {
            Err(ScriptError::Evaluation(EvalFault::UnencodableOutput))
        } else {
            Ok(spec_sighash(core, input_index as int, prev.output, script_hash, chain_id, 0u32))
        },
    }
}

/// One `CheckSig`: pops the signature then the public key, decodes both,
/// requires a registered scheme, and checks the signature over the context's
/// sighash.
pub open spec fn spec_check_sig(
    stack: Seq<Seq<u8>>,
    core: TransactionCoreView,
    input_index: usize,
    chain_id: u32,
    script_hash: Hash256,
    host_utxos: Map<TransactionInput, ResolvedInputView>,
) -> Result<Seq<Seq<u8>>, ScriptError> {
    if stack.len() < 2 {
        Err(ScriptError::StackUnderflow)
    } else {
        let sig_bytes = stack.last();
        let pk_bytes = stack.drop_last().last();
        let rest = stack.drop_last().drop_last();
        match spec_public_key_from_bytes(pk_bytes) {
            Err(_) => Err(ScriptError::Evaluation(EvalFault::InvalidPublicKey)),
            Ok(pk) => match spec_signature_from_bytes(sig_bytes) {
                Err(_) => Err(ScriptError::Evaluation(EvalFault::InvalidSignature)),
                Ok(sig) => if pk.scheme matches SignatureSchemeId::Unknown(_) {
                    Err(ScriptError::Evaluation(EvalFault::SchemeNotRegistered))
                } else {
                    match spec_context_sighash(core, input_index, chain_id, script_hash, host_utxos) {
                        Err(e) => Err(e),
                        Ok(mh) => if spec_scheme_verify(pk.scheme, pk, mh, sig) is Ok {
                            Ok(rest)
                        } else {
                            Err(ScriptError::Evaluation(EvalFault::SignatureVerificationFailed))
                        },
                    }
                },
            },
        }
    }
}

/// Pops and decodes `n` signatures, top of stack first.
pub open spec fn spec_pop_signatures(
    stack: Seq<Seq<u8>>,
    n: int,
    acc: Seq<SignatureView>,
) -> Result<(Seq<SignatureView>, Seq<Seq<u8>>), ScriptError>
    decreases n,
{
    if n <= 0 {
        Ok((acc, stack))
    } else if stack.len() == 0 {
        Err(ScriptError::StackUnderflow)
    } else {
        match spec_signature_from_bytes(stack.last()) {
            Err(_) => Err(ScriptError::Evaluation(EvalFault::InvalidSignature)),
            Ok(sv) => spec_pop_signatures(stack.drop_last(), n - 1, acc.push(sv)),
        }
    }
}

/// Pops and decodes `n` public keys, top of stack first.
pub open spec fn spec_pop_public_keys(
    stack: Seq<Seq<u8>>,
    n: int,
    acc: Seq<PublicKeyView>,
) -> Result<(Seq<PublicKeyView>, Seq<Seq<u8>>), ScriptError>
    decreases n,
{
    if n <= 0 {
        Ok((acc, stack))
    } else if stack.len() == 0 {
        Err(ScriptError::StackUnderflow)
    } else {
        match spec_public_key_from_bytes(stack.last()) {
            Err(_) => Err(ScriptError::Evaluation(EvalFault::InvalidPublicKey)),
            Ok(kv) => spec_pop_public_keys(stack.drop_last(), n - 1, acc.push(kv)),
        }
    }
}

/// Checks signature `k` against public key `k`, for `k` from the given index
/// up to the threshold; all must verify over the same context sighash.
pub open spec fn spec_multisig_verify(
    keys: Seq<PublicKeyView>,
    sigs: Seq<SignatureView>,
    k: int,
    core: TransactionCoreView,
    input_index: usize,
    chain_id: u32,
    script_hash: Hash256,
    host_utxos: Map<TransactionInput, ResolvedInputView>,
) -> Result<(), ScriptError>
    decreases sigs.len() - k,
{
    if k < 0 || k >= sigs.len() {
        Ok(())
    } else if k >= keys.len() {
        Err(ScriptError::Evaluation(EvalFault::MultisigVerificationFailed))
    } else {
        let pk = keys[k];
        if pk.scheme matches SignatureSchemeId::Unknown(_) {
            Err(ScriptError::Evaluation(EvalFault::SchemeNotRegistered))
        } else {
            match spec_context_sighash(core, input_index, chain_id, script_hash, host_utxos) {
                Err(e) => Err(e),
                Ok(mh) => if spec_scheme_verify(pk.scheme, pk, mh, sigs[k]) is Ok {
                    spec_multisig_verify(
                        keys,
                        sigs,
                        k + 1,
                        core,
                        input_index,
                        chain_id,
                        script_hash,
                        host_utxos,
                    )
                } else {
                    Err(ScriptError::Evaluation(EvalFault::MultisigVerificationFailed))
                },
            }
        }
    }
}

/// One `CheckMultiSig`: a threshold in `[1, total]`, `threshold` signatures
/// popped before `total` keys, signature `i` checked against key `i`.
pub open spec fn spec_check_multisig(
    threshold: u8,
    total: u8,
    stack: Seq<Seq<u8>>,
    core: TransactionCoreView,
    input_index: usize,
    chain_id: u32,
    script_hash: Hash256,
    host_utxos: Map<TransactionInput, ResolvedInputView>,
) -> Result<Seq<Seq<u8>>, ScriptError> {
    if threshold == 0 || total == 0 || threshold > total {
        Err(ScriptError::Evaluation(EvalFault::InvalidMultisigThreshold))
    } else {
        match spec_pop_signatures(stack, threshold as int, Seq::empty()) {
            Err(e) => Err(e),
            Ok((sigs, s1)) => match spec_pop_public_keys(s1, total as int, Seq::empty()) {
                Err(e) => Err(e),
                Ok((keys, s2)) => match spec_multisig_verify(
                    keys,
                    sigs,
                    0,
                    core,
                    input_index,
                    chain_id,
                    script_hash,
                    host_utxos,
                ) {
                    Ok(_) => Ok(s2),
                    Err(e) => Err(e),
                },
            },
        }
    }
}

/// One `CheckTimeLock`: pops an 8-byte little-endian height; passes iff the
/// effective current height has reached it.
pub open spec fn spec_check_timelock(
    stack: Seq<Seq<u8>>,
    host_height: Option<u64>,
    ctx_height: Option<u64>,
) -> Result<Seq<Seq<u8>>, ScriptError> {
    if stack.len() == 0 {
        Err(ScriptError::StackUnderflow)
    } else {
        let hb = stack.last();
        if hb.len() != 8 {
            Err(ScriptError::Evaluation(EvalFault::TimeLockOperandLength))
        } else {
            let required = vstd::bytes::spec_u64_from_le_bytes(hb);
            match spec_effective_height(host_height, ctx_height) {
                None => Err(ScriptError::Evaluation(EvalFault::HeightUnavailable)),
                Some(cur) => if cur < required {
                    Err(ScriptError::Evaluation(EvalFault::TimeLockNotSatisfied))
                } else {
                    Ok(stack.drop_last())
                },
            }
        }
    }
}

/// One `CheckRelativeTimeLock`: pops an 8-byte little-endian offset; passes
/// iff the effective current height has reached the spent input's creation
/// height plus that offset.
pub open spec fn spec_check_relative_timelock(
    stack: Seq<Seq<u8>>,
    core: TransactionCoreView,
    input_index: usize,
    host_height: Option<u64>,
    ctx_height: Option<u64>,
    host_utxos: Map<TransactionInput, ResolvedInputView>,
) -> Result<Seq<Seq<u8>>, ScriptError> {
    if stack.len() == 0 {
        Err(ScriptError::StackUnderflow)
    } else {
        let hb = stack.last();
        if hb.len() != 8 {
            Err(ScriptError::Evaluation(EvalFault::RelativeTimeLockOperandLength))
        } else {
            let relative = vstd::bytes::spec_u64_from_le_bytes(hb);
            match spec_resolve_prev(core, input_index, host_utxos) {
                Err(e) => Err(e),
                Ok(prev) => match prev.created_height {
                    None => Err(ScriptError::Evaluation(EvalFault::CreationHeightUnavailable)),
                    Some(created) => match spec_effective_height(host_height, ctx_height) {
                        None => Err(ScriptError::Evaluation(EvalFault::HeightUnavailable)),
                        Some(cur) => if cur < created + relative {
                            Err(ScriptError::Evaluation(EvalFault::RelativeTimeLockNotSatisfied))
                        } else {
                            Ok(stack.drop_last())
                        },
                    },
                },
            }
        }
    }
}

/// One `CheckHashLock`: pops a preimage then a 32-byte expected digest;
/// passes iff the preimage's content hash equals it exactly.
pub open spec fn spec_check_hashlock(stack: Seq<Seq<u8>>) -> Result<Seq<Seq<u8>>, ScriptError> {
    if stack.len() < 2 {
        Err(ScriptError::StackUnderflow)
    } else {
        let preimage = stack.last();
        let expected = stack.drop_last().last();
        let rest = stack.drop_last().drop_last();
        if expected.len() != 32 {
            Err(ScriptError::Evaluation(EvalFault::HashLockOperandLength))
        } else if spec_content_hash(preimage) != expected {
            Err(ScriptError::Evaluation(EvalFault::HashLockMismatch))
        } else {
            Ok(rest)
        }
    }
}

/// One opcode's effect on the operand stack, gas aside.
pub open spec fn spec_vm_step(
    cfg: VmConfig,
    op: OpCodeView,
    stack: Seq<Seq<u8>>,
    core: TransactionCoreView,
    input_index: usize,
    ctx_height: Option<u64>,
    chain_id: u32,
    script_hash: Hash256,
    host_height: Option<u64>,
    host_utxos: Map<TransactionInput, ResolvedInputView>,
) -> Result<Seq<Seq<u8>>, ScriptError> {
    match op {
        OpCodeView::PushBytes(data) => if stack.len() >= cfg.max_stack_items {
            Err(ScriptError::StackOverflow)
        } else {
            Ok(stack.push(data))
        },
        OpCodeView::Nop => Ok(stack),
        OpCodeView::CheckSig => spec_check_sig(
            stack,
            core,
            input_index,
            chain_id,
            script_hash,
            host_utxos,
        ),
        OpCodeView::CheckMultiSig { threshold, total } => spec_check_multisig(
            threshold,
            total,
            stack,
            core,
            input_index,
            chain_id,
            script_hash,
            host_utxos,
        ),
        OpCodeView::CheckTimeLock => spec_check_timelock(stack, host_height, ctx_height),
        OpCodeView::CheckRelativeTimeLock => spec_check_relative_timelock(
            stack,
            core,
            input_index,
            host_height,
            ctx_height,
            host_utxos,
        ),
        OpCodeView::CheckHashLock => spec_check_hashlock(stack),
    }
}

/// Evaluation from instruction `i` on: charge the opcode's cost, fail if the
/// budget is exceeded, apply the opcode, continue; the gas consumed is
/// returned at the end.
pub open spec fn spec_vm_run(
    cfg: VmConfig,
    ops: Seq<OpCodeView>,
    i: int,
    stack: Seq<Seq<u8>>,
    gas_used: u64,
    core: TransactionCoreView,
    input_index: usize,
    ctx_height: Option<u64>,
    chain_id: u32,
    script_hash: Hash256,
    host_height: Option<u64>,
    host_utxos: Map<TransactionInput, ResolvedInputView>,
) -> Result<u64, ScriptError>
    decreases ops.len() - i,
{
    if i < 0 || i >= ops.len() {
        Ok(gas_used)
    } else {
        match spec_gas_cost(ops[i], cfg.max_push_bytes) {
            Err(e) => Err(e),
            Ok(cost) => if gas_used + cost > cfg.max_gas {
                Err(ScriptError::OutOfGas)
            } else {
                match spec_vm_step(
                    cfg,
                    ops[i],
                    stack,
                    core,
                    input_index,
                    ctx_height,
                    chain_id,
                    script_hash,
                    host_height,
                    host_utxos,
                ) {
                    Err(e) => Err(e),
                    Ok(stack2) => spec_vm_run(
                        cfg,
                        ops,
                        i + 1,
                        stack2,
                        (gas_used + cost) as u64,
                        core,
                        input_index,
                        ctx_height,
                        chain_id,
                        script_hash,
                        host_height,
                        host_utxos,
                    ),
                }
            },
        }
    }
}

/// A whole evaluation: the script must fit the length limit, then runs
/// left-to-right from an empty stack and a zero meter.
pub open spec fn spec_vm_eval(
    cfg: VmConfig,
    ops: Seq<OpCodeView>,
    core: TransactionCoreView,
    input_index: usize,
    ctx_height: Option<u64>,
    chain_id: u32,
    script_hash: Hash256,
    host_height: Option<u64>,
    host_utxos: Map<TransactionInput, ResolvedInputView>,
) -> Result<u64, ScriptError> {
    if ops.len() > cfg.max_script_len {
        Err(ScriptError::ScriptTooLarge)
    } else {
        spec_vm_run(
            cfg,
            ops,
            0,
            Seq::empty(),
            0u64,
            core,
            input_index,
            ctx_height,
            chain_id,
            script_hash,
            host_height,
            host_utxos,
        )
    }
}

/// Whether every length prefix of a transaction core fits its 4-byte field.
pub fn check_core_encodable(core: &TransactionCore) -> (b: bool)
    ensures
        b == crate::codec::tx_core_encodable(core@),
{
    if core.inputs.len() > (u32::MAX as usize) {
        return false;
    }
    if core.outputs.len() > (u32::MAX as usize) {
        return false;
    }
    let mut i: usize = 0;
    while i < core.outputs.len()
        invariant
            0 <= i <= core.outputs@.len(),
            core.inputs@.len() <= u32::MAX,
            core.outputs@.len() <= u32::MAX,
            forall|k: int|
                0 <= k < i ==> crate::codec::output_encodable(#[trigger] core@.outputs[k]),
        decreases core.outputs@.len() - i,
    {
        if core.outputs[i].assets.len() > (u32::MAX as usize) {
            assert(!crate::codec::output_encodable(core@.outputs[i as int]));
            return false;
        }
        assert(crate::codec::output_encodable(core@.outputs[i as int]));
        i = i + 1;
    }
    true
}


/// Executes one `CheckSig` against the operand stack.
fn do_check_sig<H: ScriptHost>(stack: &mut Stack, ctx: &ScriptContext, host: &H) -> (r: Result<
    (),
    ScriptError,
>)
    ensures
        final(stack).max_items == old(stack).max_items,
        match spec_check_sig(
            old(stack)@,
            ctx.tx.core@,
            ctx.input_index,
            ctx.chain_id,
            ctx.script_hash,
            host.spec_utxos(),
        ) {
            Ok(st) => r is Ok && final(stack)@ == st,
            Err(e) => r == Err::<(), ScriptError>(e),
        },
{
    let signature_bytes = match stack.pop() {
        Ok(v) => v,
        Err(e) => {
            return Err(e);
        },
    };
    let public_key_bytes = match stack.pop() {
        Ok(v) => v,
        Err(e) => {
            return Err(e);
        },
    };
    let public_key = match PublicKey::from_bytes(public_key_bytes.as_slice()) {
        Ok(pk) => pk,
        Err(_) => {
            return Err(ScriptError::Evaluation(EvalFault::InvalidPublicKey));
        },
    };
    let signature = match Signature::from_bytes(signature_bytes.as_slice()) {
        Ok(s) => s,
        Err(_) => {
            return Err(ScriptError::Evaluation(EvalFault::InvalidSignature));
        },
    };
    if matches!(public_key.scheme, SignatureSchemeId::Unknown(_)) {
        return Err(ScriptError::Evaluation(EvalFault::SchemeNotRegistered));
    }
    if ctx.input_index >= ctx.tx.core.inputs.len() {
        return Err(ScriptError::Evaluation(EvalFault::InputIndexOutOfBounds));
    }
    let resolved = match host.input_utxo(&ctx.tx.core.inputs[ctx.input_index]) {
        Some(ri) => ri,
        None => {
            return Err(ScriptError::Evaluation(EvalFault::UnresolvedInput));
        },
    };
    if !check_core_encodable(&ctx.tx.core) {
        return Err(ScriptError::Evaluation(EvalFault::UnencodableTransaction));
    }
    if resolved.output.assets.len() > (u32::MAX as usize) {
        return Err(ScriptError::Evaluation(EvalFault::UnencodableOutput));
    }
    let mh = ctx.tx.sighash(
        ctx.input_index,
        &resolved.output,
        ctx.script_hash,
        ctx.chain_id,
        SighashFlags::default(),
    );
    match crate::crypto::default_registry_verify(&public_key, mh.as_slice(), &signature) {
        Some(Ok(_)) => Ok(()),
        Some(Err(_)) => Err(ScriptError::Evaluation(EvalFault::SignatureVerificationFailed)),
        None => Err(ScriptError::Evaluation(EvalFault::SchemeNotRegistered)),
    }
}

/// Executes one `CheckMultiSig` against the operand stack.
fn do_check_multisig<H: ScriptHost>(
    stack: &mut Stack,
    threshold: u8,
    total: u8,
    ctx: &ScriptContext,
    host: &H,
) -> (r: Result<(), ScriptError>)
    ensures
        final(stack).max_items == old(stack).max_items,
        match spec_check_multisig(
            threshold,
            total,
            old(stack)@,
            ctx.tx.core@,
            ctx.input_index,
            ctx.chain_id,
            ctx.script_hash,
            host.spec_utxos(),
        ) {
            Ok(st) => r is Ok && final(stack)@ == st,
            Err(e) => r == Err::<(), ScriptError>(e),
        },
{
    let t = threshold as usize;
    let tot = total as usize;
    if t == 0 || tot == 0 || t > tot {
        return Err(ScriptError::Evaluation(EvalFault::InvalidMultisigThreshold));
    }
    let ghost st0 = stack@;
    proof {
        assert(st0 == old(stack)@);
    }
    let mut signatures: Vec<Signature> = Vec::new();
    let mut k: usize = 0;
    proof {
        assert(Seq::new(signatures@.len(), |i: int| signatures@[i]@) =~= Seq::<
            SignatureView,
        >::empty());
    }
    while k < t
        invariant
            0 <= k <= t,
            t == threshold as usize,
            tot == total as usize,
            0 < t <= tot,
            st0 == old(stack)@,
            signatures@.len() == k,
            stack.max_items == old(stack).max_items,
            spec_pop_signatures(st0, threshold as int, Seq::empty()) == spec_pop_signatures(
                stack@,
                threshold as int - k,
                Seq::new(signatures@.len(), |i: int| signatures@[i]@),
            ),
        decreases t - k,
    {
        let ghost acc = Seq::new(signatures@.len(), |i: int| signatures@[i]@);
        let ghost stv = stack@;
        let sig_bytes = match stack.pop() {
            Ok(v) => v,
            Err(e) => {
                proof {
                    assert(spec_pop_signatures(stv, threshold as int - k, acc) == Err::<
                        (Seq<SignatureView>, Seq<Seq<u8>>),
                        ScriptError,
                    >(ScriptError::StackUnderflow));
                    assert(spec_check_multisig(
                        threshold,
                        total,
                        st0,
                        ctx.tx.core@,
                        ctx.input_index,
                        ctx.chain_id,
                        ctx.script_hash,
                        host.spec_utxos(),
                    ) == Err::<Seq<Seq<u8>>, ScriptError>(ScriptError::StackUnderflow));
                }
                return Err(e);
            },
        };
        let signature = match Signature::from_bytes(sig_bytes.as_slice()) {
            Ok(s) => s,
            Err(_) => {
                proof {
                    assert(spec_pop_signatures(stv, threshold as int - k, acc) == Err::<
                        (Seq<SignatureView>, Seq<Seq<u8>>),
                        ScriptError,
                    >(ScriptError::Evaluation(EvalFault::InvalidSignature)));
                    assert(spec_check_multisig(
                        threshold,
                        total,
                        st0,
                        ctx.tx.core@,
                        ctx.input_index,
                        ctx.chain_id,
                        ctx.script_hash,
                        host.spec_utxos(),
                    ) == Err::<Seq<Seq<u8>>, ScriptError>(ScriptError::Evaluation(
                        EvalFault::InvalidSignature,
                    )));
                }
                return Err(ScriptError::Evaluation(EvalFault::InvalidSignature));
            },
        };
        let ghost sv = signature@;
        signatures.push(signature);
        proof {
            assert(Seq::new(signatures@.len(), |i: int| signatures@[i]@) =~= acc.push(sv));
        }
        k = k + 1;
    }
    let ghost sigs = Seq::new(signatures@.len(), |i: int| signatures@[i]@);
    let ghost s1 = stack@;
    proof {
        assert(spec_pop_signatures(st0, threshold as int, Seq::empty()) == Ok::<
            (Seq<SignatureView>, Seq<Seq<u8>>),
            ScriptError,
        >((sigs, s1)));
    }
    let mut pubkeys: Vec<PublicKey> = Vec::new();
    let mut m: usize = 0;
    proof {
        assert(Seq::new(pubkeys@.len(), |i: int| pubkeys@[i]@) =~= Seq::<PublicKeyView>::empty());
    }
    while m < tot
        invariant
            0 <= m <= tot,
            t == threshold as usize,
            tot == total as usize,
            0 < t <= tot,
            st0 == old(stack)@,
            pubkeys@.len() == m,
            stack.max_items == old(stack).max_items,
            spec_pop_public_keys(s1, total as int, Seq::empty()) == spec_pop_public_keys(
                stack@,
                total as int - m,
                Seq::new(pubkeys@.len(), |i: int| pubkeys@[i]@),
            ),
            spec_pop_signatures(st0, threshold as int, Seq::empty()) == Ok::<
                (Seq<SignatureView>, Seq<Seq<u8>>),
                ScriptError,
            >((sigs, s1)),
        decreases tot - m,
    {
        let ghost acc = Seq::new(pubkeys@.len(), |i: int| pubkeys@[i]@);
        let ghost stv = stack@;
        let pk_bytes = match stack.pop() {
            Ok(v) => v,
            Err(e) => {
                proof {
                    assert(spec_pop_public_keys(stv, total as int - m, acc) == Err::<
                        (Seq<PublicKeyView>, Seq<Seq<u8>>),
                        ScriptError,
                    >(ScriptError::StackUnderflow));
                    assert(spec_check_multisig(
                        threshold,
                        total,
                        st0,
                        ctx.tx.core@,
                        ctx.input_index,
                        ctx.chain_id,
                        ctx.script_hash,
                        host.spec_utxos(),
                    ) == Err::<Seq<Seq<u8>>, ScriptError>(ScriptError::StackUnderflow));
                }
                return Err(e);
            },
        };
        let public_key = match PublicKey::from_bytes(pk_bytes.as_slice()) {
            Ok(p) => p,
            Err(_) => {
                proof {
                    assert(spec_pop_public_keys(stv, total as int - m, acc) == Err::<
                        (Seq<PublicKeyView>, Seq<Seq<u8>>),
                        ScriptError,
                    >(ScriptError::Evaluation(EvalFault::InvalidPublicKey)));
                    assert(spec_check_multisig(
                        threshold,
                        total,
                        st0,
                        ctx.tx.core@,
                        ctx.input_index,
                        ctx.chain_id,
                        ctx.script_hash,
                        host.spec_utxos(),
                    ) == Err::<Seq<Seq<u8>>, ScriptError>(ScriptError::Evaluation(
                        EvalFault::InvalidPublicKey,
                    )));
                }
                return Err(ScriptError::Evaluation(EvalFault::InvalidPublicKey));
            },
        };
        let ghost kv = public_key@;
        pubkeys.push(public_key);
        proof {
            assert(Seq::new(pubkeys@.len(), |i: int| pubkeys@[i]@) =~= acc.push(kv));
        }
        m = m + 1;
    }
    let ghost keys = Seq::new(pubkeys@.len(), |i: int| pubkeys@[i]@);
    let ghost s2 = stack@;
    proof {
        assert(spec_pop_public_keys(s1, total as int, Seq::empty()) == Ok::<
            (Seq<PublicKeyView>, Seq<Seq<u8>>),
            ScriptError,
        >((keys, s2)));
    }
    let mut i: usize = 0;
    while i < t
        invariant
            0 <= i <= t,
            t == threshold as usize,
            tot == total as usize,
            0 < t <= tot,
            st0 == old(stack)@,
            signatures@.len() == t,
            pubkeys@.len() == tot,
            sigs == Seq::new(signatures@.len(), |j: int| signatures@[j]@),
            keys == Seq::new(pubkeys@.len(), |j: int| pubkeys@[j]@),
            sigs.len() == t,
            keys.len() == tot,
            stack@ == s2,
            stack.max_items == old(stack).max_items,
            spec_pop_signatures(st0, threshold as int, Seq::empty()) == Ok::<
                (Seq<SignatureView>, Seq<Seq<u8>>),
                ScriptError,
            >((sigs, s1)),
            spec_pop_public_keys(s1, total as int, Seq::empty()) == Ok::<
                (Seq<PublicKeyView>, Seq<Seq<u8>>),
                ScriptError,
            >((keys, s2)),
            spec_multisig_verify(
                keys,
                sigs,
                0,
                ctx.tx.core@,
                ctx.input_index,
                ctx.chain_id,
                ctx.script_hash,
                host.spec_utxos(),
            ) == spec_multisig_verify(
                keys,
                sigs,
                i as int,
                ctx.tx.core@,
                ctx.input_index,
                ctx.chain_id,
                ctx.script_hash,
                host.spec_utxos(),
            ),
        decreases t - i,
    {
        let public_key = &pubkeys[i];
        if matches!(public_key.scheme, SignatureSchemeId::Unknown(_)) {
            proof {
                assert(keys[i as int] == pubkeys@[i as int]@);
                assert(spec_multisig_verify(
                    keys,
                    sigs,
                    i as int,
                    ctx.tx.core@,
                    ctx.input_index,
                    ctx.chain_id,
                    ctx.script_hash,
                    host.spec_utxos(),
                ) == Err::<(), ScriptError>(ScriptError::Evaluation(
                    EvalFault::SchemeNotRegistered,
                )));
                assert(spec_check_multisig(
                    threshold,
                    total,
                    st0,
                    ctx.tx.core@,
                    ctx.input_index,
                    ctx.chain_id,
                    ctx.script_hash,
                    host.spec_utxos(),
                ) == Err::<Seq<Seq<u8>>, ScriptError>(ScriptError::Evaluation(
                    EvalFault::SchemeNotRegistered,
                )));
            }
            return Err(ScriptError::Evaluation(EvalFault::SchemeNotRegistered));
        }
        if ctx.input_index >= ctx.tx.core.inputs.len() {
            proof {
                assert(keys[i as int] == pubkeys@[i as int]@);
                assert(spec_multisig_verify(
                    keys,
                    sigs,
                    i as int,
                    ctx.tx.core@,
                    ctx.input_index,
                    ctx.chain_id,
                    ctx.script_hash,
                    host.spec_utxos(),
                ) == Err::<(), ScriptError>(ScriptError::Evaluation(EvalFault::InputIndexOutOfBounds)));
                assert(spec_check_multisig(
                    threshold,
                    total,
                    st0,
                    ctx.tx.core@,
                    ctx.input_index,
                    ctx.chain_id,
                    ctx.script_hash,
                    host.spec_utxos(),
                ) == Err::<Seq<Seq<u8>>, ScriptError>(ScriptError::Evaluation(EvalFault::InputIndexOutOfBounds)));
            }
            return Err(ScriptError::Evaluation(EvalFault::InputIndexOutOfBounds));
        }
        let resolved = match host.input_utxo(&ctx.tx.core.inputs[ctx.input_index]) {
            Some(ri) => ri,
            None => {
                proof {
                assert(keys[i as int] == pubkeys@[i as int]@);
                assert(spec_multisig_verify(
                    keys,
                    sigs,
                    i as int,
                    ctx.tx.core@,
                    ctx.input_index,
                    ctx.chain_id,
                    ctx.script_hash,
                    host.spec_utxos(),
                ) == Err::<(), ScriptError>(ScriptError::Evaluation(EvalFault::UnresolvedInput)));
                assert(spec_check_multisig(
                    threshold,
                    total,
                    st0,
                    ctx.tx.core@,
                    ctx.input_index,
                    ctx.chain_id,
                    ctx.script_hash,
                    host.spec_utxos(),
                ) == Err::<Seq<Seq<u8>>, ScriptError>(ScriptError::Evaluation(EvalFault::UnresolvedInput)));
            }
            return Err(ScriptError::Evaluation(EvalFault::UnresolvedInput));
            },
        };
        if !check_core_encodable(&ctx.tx.core) {
            proof {
                assert(keys[i as int] == pubkeys@[i as int]@);
                assert(spec_multisig_verify(
                    keys,
                    sigs,
                    i as int,
                    ctx.tx.core@,
                    ctx.input_index,
                    ctx.chain_id,
                    ctx.script_hash,
                    host.spec_utxos(),
                ) == Err::<(), ScriptError>(ScriptError::Evaluation(EvalFault::UnencodableTransaction)));
                assert(spec_check_multisig(
                    threshold,
                    total,
                    st0,
                    ctx.tx.core@,
                    ctx.input_index,
                    ctx.chain_id,
                    ctx.script_hash,
                    host.spec_utxos(),
                ) == Err::<Seq<Seq<u8>>, ScriptError>(ScriptError::Evaluation(EvalFault::UnencodableTransaction)));
            }
            return Err(ScriptError::Evaluation(EvalFault::UnencodableTransaction));
        }
        if resolved.output.assets.len() > (u32::MAX as usize) {
            proof {
                assert(keys[i as int] == pubkeys@[i as int]@);
                assert(spec_multisig_verify(
                    keys,
                    sigs,
                    i as int,
                    ctx.tx.core@,
                    ctx.input_index,
                    ctx.chain_id,
                    ctx.script_hash,
                    host.spec_utxos(),
                ) == Err::<(), ScriptError>(ScriptError::Evaluation(EvalFault::UnencodableOutput)));
                assert(spec_check_multisig(
                    threshold,
                    total,
                    st0,
                    ctx.tx.core@,
                    ctx.input_index,
                    ctx.chain_id,
                    ctx.script_hash,
                    host.spec_utxos(),
                ) == Err::<Seq<Seq<u8>>, ScriptError>(ScriptError::Evaluation(EvalFault::UnencodableOutput)));
            }
            return Err(ScriptError::Evaluation(EvalFault::UnencodableOutput));
        }
        let mh = ctx.tx.sighash(
            ctx.input_index,
            &resolved.output,
            ctx.script_hash,
            ctx.chain_id,
            SighashFlags::default(),
        );
        let ghost mhv = mh@;
        match crate::crypto::default_registry_verify(public_key, mh.as_slice(), &signatures[i]) {
            Some(Ok(_)) => {
                proof {
                    assert(keys[i as int] == pubkeys@[i as int]@);
                    assert(sigs[i as int] == signatures@[i as int]@);
                    assert(spec_context_sighash(
                        ctx.tx.core@,
                        ctx.input_index,
                        ctx.chain_id,
                        ctx.script_hash,
                        host.spec_utxos(),
                    ) == Ok::<Seq<u8>, ScriptError>(mhv));
                    assert(spec_scheme_verify(keys[i as int].scheme, keys[i as int], mhv, sigs[i as int]) is Ok);
                }
            },
            Some(Err(_)) => {
                proof {
                    assert(keys[i as int] == pubkeys@[i as int]@);
                    assert(sigs[i as int] == signatures@[i as int]@);
                    assert(spec_context_sighash(
                        ctx.tx.core@,
                        ctx.input_index,
                        ctx.chain_id,
                        ctx.script_hash,
                        host.spec_utxos(),
                    ) == Ok::<Seq<u8>, ScriptError>(mhv));
                    assert(spec_scheme_verify(keys[i as int].scheme, keys[i as int], mhv, sigs[i as int]) is Err);
                    assert(spec_multisig_verify(
                        keys,
                        sigs,
                        i as int,
                        ctx.tx.core@,
                        ctx.input_index,
                        ctx.chain_id,
                        ctx.script_hash,
                        host.spec_utxos(),
                    ) == Err::<(), ScriptError>(ScriptError::Evaluation(
                        EvalFault::MultisigVerificationFailed,
                    )));
                    assert(spec_check_multisig(
                        threshold,
                        total,
                        st0,
                        ctx.tx.core@,
                        ctx.input_index,
                        ctx.chain_id,
                        ctx.script_hash,
                        host.spec_utxos(),
                    ) == Err::<Seq<Seq<u8>>, ScriptError>(ScriptError::Evaluation(
                        EvalFault::MultisigVerificationFailed,
                    )));
                }
                return Err(ScriptError::Evaluation(EvalFault::MultisigVerificationFailed));
            },
            None => {
                proof {
                    assert(keys[i as int] == pubkeys@[i as int]@);
                    assert(false);
                }
                return Err(ScriptError::Evaluation(EvalFault::MultisigVerificationFailed));
            },
        }
        i = i + 1;
    }
    Ok(())
}

/// Executes one `CheckTimeLock` against the operand stack.
fn do_check_timelock<H: ScriptHost>(stack: &mut Stack, ctx: &ScriptContext, host: &H) -> (r: Result<
    (),
    ScriptError,
>)
    ensures
        final(stack).max_items == old(stack).max_items,
        match spec_check_timelock(old(stack)@, host.spec_height(), ctx.current_height) {
            Ok(st) => r is Ok && final(stack)@ == st,
            Err(e) => r == Err::<(), ScriptError>(e),
        },
{
    let required_height_bytes = match stack.pop() {
        Ok(v) => v,
        Err(e) => {
            return Err(e);
        },
    };
    if required_height_bytes.len() != 8 {
        return Err(ScriptError::Evaluation(EvalFault::TimeLockOperandLength));
    }
    let required = vstd::bytes::u64_from_le_bytes(required_height_bytes.as_slice());
    let current = match (host.current_height(), ctx.current_height) {
        (Some(h), Some(c)) => Some(if h >= c {
            h
        } else {
            c
        }),
        (Some(h), None) => Some(h),
        (None, c) => c,
    };
    match current {
        None => Err(ScriptError::Evaluation(EvalFault::HeightUnavailable)),
        Some(cur) => {
            if cur < required {
                Err(ScriptError::Evaluation(EvalFault::TimeLockNotSatisfied))
            } else {
                Ok(())
            }
        },
    }
}

/// Executes one `CheckRelativeTimeLock` against the operand stack.
fn do_check_relative_timelock<H: ScriptHost>(stack: &mut Stack, ctx: &ScriptContext, host: &H) -> (r:
    Result<(), ScriptError>)
    ensures
        final(stack).max_items == old(stack).max_items,
        match spec_check_relative_timelock(
            old(stack)@,
            ctx.tx.core@,
            ctx.input_index,
            host.spec_height(),
            ctx.current_height,
            host.spec_utxos(),
        ) {
            Ok(st) => r is Ok && final(stack)@ == st,
            Err(e) => r == Err::<(), ScriptError>(e),
        },
{
    let relative_bytes = match stack.pop() {
        Ok(v) => v,
        Err(e) => {
            return Err(e);
        },
    };
    if relative_bytes.len() != 8 {
        return Err(ScriptError::Evaluation(EvalFault::RelativeTimeLockOperandLength));
    }
    let relative = vstd::bytes::u64_from_le_bytes(relative_bytes.as_slice());
    if ctx.input_index >= ctx.tx.core.inputs.len() {
        return Err(ScriptError::Evaluation(EvalFault::InputIndexOutOfBounds));
    }
    let resolved = match host.input_utxo(&ctx.tx.core.inputs[ctx.input_index]) {
        Some(ri) => ri,
        None => {
            return Err(ScriptError::Evaluation(EvalFault::UnresolvedInput));
        },
    };
    let created = match resolved.created_height {
        Some(h) => h,
        None => {
            return Err(ScriptError::Evaluation(EvalFault::CreationHeightUnavailable));
        },
    };
    let current = match (host.current_height(), ctx.current_height) {
        (Some(h), Some(c)) => Some(if h >= c {
            h
        } else {
            c
        }),
        (Some(h), None) => Some(h),
        (None, c) => c,
    };
    match current {
        None => Err(ScriptError::Evaluation(EvalFault::HeightUnavailable)),
        Some(cur) => {
            match created.checked_add(relative) {
                Some(bound) => {
                    if cur < bound {
                        Err(ScriptError::Evaluation(EvalFault::RelativeTimeLockNotSatisfied))
                    } else {
                        Ok(())
                    }
                },
                None => {
                    // the bound exceeds any representable height
                    Err(ScriptError::Evaluation(EvalFault::RelativeTimeLockNotSatisfied))
                },
            }
        },
    }
}

/// Executes one `CheckHashLock` against the operand stack.
fn do_check_hashlock(stack: &mut Stack) -> (r: Result<(), ScriptError>)
    ensures
        final(stack).max_items == old(stack).max_items,
        match spec_check_hashlock(old(stack)@) {
            Ok(st) => r is Ok && final(stack)@ == st,
            Err(e) => r == Err::<(), ScriptError>(e),
        },
{
    let preimage = match stack.pop() {
        Ok(v) => v,
        Err(e) => {
            return Err(e);
        },
    };
    let expected_hash = match stack.pop() {
        Ok(v) => v,
        Err(e) => {
            return Err(e);
        },
    };
    if expected_hash.len() != 32 {
        return Err(ScriptError::Evaluation(EvalFault::HashLockOperandLength));
    }
    let actual = crate::hashing::hash_bytes(preimage.as_slice());
    if !crate::hashing::bytes_eq(actual.as_slice(), expected_hash.as_slice()) {
        return Err(ScriptError::Evaluation(EvalFault::HashLockMismatch));
    }
    Ok(())
}

/// The reference script engine: left-to-right, gas-metered, deterministic.
pub struct DeterministicScriptEngine {
    pub config: VmConfig,
}

impl DeterministicScriptEngine {
    pub fn with_config(config: VmConfig) -> (r: Self)
        ensures
            r.config == config,
    {
        Self { config }
    }
}

impl Default for DeterministicScriptEngine {
    fn default() -> (r: Self)
        ensures
            r.config == (VmConfig {
                max_gas: DEFAULT_MAX_GAS,
                max_stack_items: DEFAULT_MAX_STACK_ITEMS,
                max_push_bytes: DEFAULT_MAX_PUSH_BYTES,
                max_script_len: DEFAULT_MAX_SCRIPT_LEN,
            }),
    {
        Self { config: VmConfig::default() }
    }
}


impl ScriptEngine for DeterministicScriptEngine {
    open spec fn spec_eval(
        &self,
        ops: Seq<OpCodeView>,
        tx_core: TransactionCoreView,
        input_index: usize,
        current_height: Option<u64>,
        chain_id: u32,
        script_hash: Hash256,
        host_height: Option<u64>,
        host_utxos: Map<TransactionInput, ResolvedInputView>,
    ) -> Result<u64, ScriptError> {
        spec_vm_eval(
            self.config,
            ops,
            tx_core,
            input_index,
            current_height,
            chain_id,
            script_hash,
            host_height,
            host_utxos,
        )
    }

    fn eval<H: ScriptHost>(&self, script: &Script, ctx: &ScriptContext, host: &H) -> (r: Result<
        ScriptResult,
        ScriptError,
    >) {
        let ghost ops = script@;
        let ghost core = ctx.tx.core@;
        let ghost hh = host.spec_height();
        let ghost hu = host.spec_utxos();
        if script.0.len() > self.config.max_script_len {
            return Err(ScriptError::ScriptTooLarge);
        }
        let mut gas = GasMeter::new(self.config.max_gas);
        let mut stack = Stack::new(self.config.max_stack_items);
        let mut pc: usize = 0;
        proof {
            assert(stack@ =~= Seq::<Seq<u8>>::empty());
        }
        while pc < script.0.len()
            invariant
                0 <= pc <= script.0@.len(),
                ops == script@,
                ops.len() == script.0@.len(),
                forall|k: int| 0 <= k < ops.len() ==> ops[k] == script.0@[k]@,
                core == ctx.tx.core@,
                hh == host.spec_height(),
                hu == host.spec_utxos(),
                gas.limit == self.config.max_gas,
                gas.remaining <= gas.limit,
                stack.max_items == self.config.max_stack_items,
                ops.len() <= self.config.max_script_len,
                spec_vm_run(
                    self.config,
                    ops,
                    0,
                    Seq::empty(),
                    0u64,
                    core,
                    ctx.input_index,
                    ctx.current_height,
                    ctx.chain_id,
                    ctx.script_hash,
                    hh,
                    hu,
                ) == spec_vm_run(
                    self.config,
                    ops,
                    pc as int,
                    stack@,
                    (gas.limit - gas.remaining) as u64,
                    core,
                    ctx.input_index,
                    ctx.current_height,
                    ctx.chain_id,
                    ctx.script_hash,
                    hh,
                    hu,
                ),
            decreases script.0@.len() - pc,
        {
            let ghost st0 = stack@;
            let ghost g0 = (gas.limit - gas.remaining) as u64;
            let op = &script.0[pc];
            let cost = match gas_cost(op, self.config.max_push_bytes) {
                Ok(c) => c,
                Err(e) => {
                    proof {
                        assert(spec_vm_run(
                            self.config,
                            ops,
                            pc as int,
                            st0,
                            g0,
                            core,
                            ctx.input_index,
                            ctx.current_height,
                            ctx.chain_id,
                            ctx.script_hash,
                            hh,
                            hu,
                        ) == Err::<u64, ScriptError>(e));
                    }
                    return Err(e);
                },
            };
            if let Err(e) = gas.consume(cost) {
                proof {
                    assert(g0 + cost > self.config.max_gas);
                    assert(spec_vm_run(
                        self.config,
                        ops,
                        pc as int,
                        st0,
                        g0,
                        core,
                        ctx.input_index,
                        ctx.current_height,
                        ctx.chain_id,
                        ctx.script_hash,
                        hh,
                        hu,
                    ) == Err::<u64, ScriptError>(ScriptError::OutOfGas));
                }
                return Err(e);
            }
            proof {
                assert(g0 + cost <= self.config.max_gas);
                assert((gas.limit - gas.remaining) as u64 == (g0 + cost) as u64);
            }
            match op {
                OpCode::PushBytes(data) => {
                    if data.len() > self.config.max_push_bytes {
                        proof {
                            assert(ops[pc as int] matches OpCodeView::PushBytes(d) && d == data@);
                            assert(false);
                        }
                        return Err(ScriptError::Evaluation(EvalFault::PushLimitExceeded));
                    }
                    let copied = crate::types::copy_bytes(data);
                    match stack.push(copied) {
                        Ok(_) => {},
                        Err(e) => {
                            proof {
                                assert(spec_vm_step(
                                    self.config,
                                    ops[pc as int],
                                    st0,
                                    core,
                                    ctx.input_index,
                                    ctx.current_height,
                                    ctx.chain_id,
                                    ctx.script_hash,
                                    hh,
                                    hu,
                                ) == Err::<Seq<Seq<u8>>, ScriptError>(e));
                                assert(spec_vm_run(
                                    self.config,
                                    ops,
                                    pc as int,
                                    st0,
                                    g0,
                                    core,
                                    ctx.input_index,
                                    ctx.current_height,
                                    ctx.chain_id,
                                    ctx.script_hash,
                                    hh,
                                    hu,
                                ) == Err::<u64, ScriptError>(e));
                            }
                            return Err(e);
                        },
                    }
                },
                OpCode::Nop => {},
                OpCode::CheckSig => {
                    match do_check_sig(&mut stack, ctx, host) {
                        Ok(_) => {},
                        Err(e) => {
                            proof {
                                assert(spec_vm_step(
                                    self.config,
                                    ops[pc as int],
                                    st0,
                                    core,
                                    ctx.input_index,
                                    ctx.current_height,
                                    ctx.chain_id,
                                    ctx.script_hash,
                                    hh,
                                    hu,
                                ) == Err::<Seq<Seq<u8>>, ScriptError>(e));
                                assert(spec_vm_run(
                                    self.config,
                                    ops,
                                    pc as int,
                                    st0,
                                    g0,
                                    core,
                                    ctx.input_index,
                                    ctx.current_height,
                                    ctx.chain_id,
                                    ctx.script_hash,
                                    hh,
                                    hu,
                                ) == Err::<u64, ScriptError>(e));
                            }
                            return Err(e);
                        },
                    }
                },
                OpCode::CheckMultiSig { threshold, total } => {
                    match do_check_multisig(&mut stack, *threshold, *total, ctx, host) {
                        Ok(_) => {},
                        Err(e) => {
                            proof {
                                assert(spec_vm_step(
                                    self.config,
                                    ops[pc as int],
                                    st0,
                                    core,
                                    ctx.input_index,
                                    ctx.current_height,
                                    ctx.chain_id,
                                    ctx.script_hash,
                                    hh,
                                    hu,
                                ) == Err::<Seq<Seq<u8>>, ScriptError>(e));
                                assert(spec_vm_run(
                                    self.config,
                                    ops,
                                    pc as int,
                                    st0,
                                    g0,
                                    core,
                                    ctx.input_index,
                                    ctx.current_height,
                                    ctx.chain_id,
                                    ctx.script_hash,
                                    hh,
                                    hu,
                                ) == Err::<u64, ScriptError>(e));
                            }
                            return Err(e);
                        },
                    }
                },
                OpCode::CheckTimeLock => {
                    match do_check_timelock(&mut stack, ctx, host) {
                        Ok(_) => {},
                        Err(e) => {
                            proof {
                                assert(spec_vm_step(
                                    self.config,
                                    ops[pc as int],
                                    st0,
                                    core,
                                    ctx.input_index,
                                    ctx.current_height,
                                    ctx.chain_id,
                                    ctx.script_hash,
                                    hh,
                                    hu,
                                ) == Err::<Seq<Seq<u8>>, ScriptError>(e));
                                assert(spec_vm_run(
                                    self.config,
                                    ops,
                                    pc as int,
                                    st0,
                                    g0,
                                    core,
                                    ctx.input_index,
                                    ctx.current_height,
                                    ctx.chain_id,
                                    ctx.script_hash,
                                    hh,
                                    hu,
                                ) == Err::<u64, ScriptError>(e));
                            }
                            return Err(e);
                        },
                    }
                },
                OpCode::CheckRelativeTimeLock => {
                    match do_check_relative_timelock(&mut stack, ctx, host) {
                        Ok(_) => {},
                        Err(e) => {
                            proof {
                                assert(spec_vm_step(
                                    self.config,
                                    ops[pc as int],
                                    st0,
                                    core,
                                    ctx.input_index,
                                    ctx.current_height,
                                    ctx.chain_id,
                                    ctx.script_hash,
                                    hh,
                                    hu,
                                ) == Err::<Seq<Seq<u8>>, ScriptError>(e));
                                assert(spec_vm_run(
                                    self.config,
                                    ops,
                                    pc as int,
                                    st0,
                                    g0,
                                    core,
                                    ctx.input_index,
                                    ctx.current_height,
                                    ctx.chain_id,
                                    ctx.script_hash,
                                    hh,
                                    hu,
                                ) == Err::<u64, ScriptError>(e));
                            }
                            return Err(e);
                        },
                    }
                },
                OpCode::CheckHashLock => {
                    match do_check_hashlock(&mut stack) {
                        Ok(_) => {},
                        Err(e) => {
                            proof {
                                assert(spec_vm_step(
                                    self.config,
                                    ops[pc as int],
                                    st0,
                                    core,
                                    ctx.input_index,
                                    ctx.current_height,
                                    ctx.chain_id,
                                    ctx.script_hash,
                                    hh,
                                    hu,
                                ) == Err::<Seq<Seq<u8>>, ScriptError>(e));
                                assert(spec_vm_run(
                                    self.config,
                                    ops,
                                    pc as int,
                                    st0,
                                    g0,
                                    core,
                                    ctx.input_index,
                                    ctx.current_height,
                                    ctx.chain_id,
                                    ctx.script_hash,
                                    hh,
                                    hu,
                                ) == Err::<u64, ScriptError>(e));
                            }
                            return Err(e);
                        },
                    }
                },
            }
            proof {
                assert(spec_vm_step(
                    self.config,
                    ops[pc as int],
                    st0,
                    core,
                    ctx.input_index,
                    ctx.current_height,
                    ctx.chain_id,
                    ctx.script_hash,
                    hh,
                    hu,
                ) == Ok::<Seq<Seq<u8>>, ScriptError>(stack@));
            }
            pc = pc + 1;
        }
        let gas_consumed = gas.used();
        Ok(ScriptResult { gas_consumed })
    }
}


/// The mapping a list of resolutions denotes; the first entry for a key
/// wins.
spec fn static_map_of(s: Seq<(TransactionInput, ResolvedInput)>) -> Map<
    TransactionInput,
    ResolvedInputView,
>
    decreases s.len(),
{
    if s.len() == 0 {
        Map::empty()
    } else {
        static_map_of(s.drop_first()).insert(s[0].0, s[0].1@)
    }
}

/// A fixed script host: a configured current height and a finite table of
/// input resolutions.
pub struct StaticHost {
    current_height: Option<u64>,
    entries: Vec<(TransactionInput, ResolvedInput)>,
}

impl StaticHost {
    pub fn new(current_height: Option<u64>) -> (r: Self)
        ensures
            r.spec_height() == current_height,
            r.spec_utxos() == Map::<TransactionInput, ResolvedInputView>::empty(),
    {
        let r = StaticHost { current_height, entries: Vec::new() };
        proof {
            assert(r.spec_utxos() =~= Map::<TransactionInput, ResolvedInputView>::empty());
        }
        r
    }

    /// Adds one resolution; an input resolved earlier keeps its first
    /// answer.
    pub fn with_input(self, input: TransactionInput, resolved: ResolvedInput) -> (r: Self)
        ensures
            r.spec_height() == self.spec_height(),
            r.spec_utxos() == if self.spec_utxos().dom().contains(input) {
                self.spec_utxos()
            } else {
                self.spec_utxos().insert(input, resolved@)
            },
    {
        let ghost oldentries = self.entries@;
        let ghost rv = resolved@;
        let mut entries = self.entries;
        entries.push((input, resolved));
        proof {
            lemma_static_map_push(oldentries, input, rv);
        }
        StaticHost { current_height: self.current_height, entries }
    }
}

/// Appending a resolution only takes effect for a key not already resolved.
proof fn lemma_static_map_push(
    s: Seq<(TransactionInput, ResolvedInput)>,
    input: TransactionInput,
    rv: ResolvedInputView,
)
    ensures
        forall|resolved: ResolvedInput| #[trigger]
            resolved@ == rv ==> static_map_of(s.push((input, resolved))) == (
            if static_map_of(s).dom().contains(input) {
                static_map_of(s)
            } else {
                static_map_of(s).insert(input, rv)
            }),
    decreases s.len(),
{
    assert forall|resolved: ResolvedInput| #[trigger] resolved@ == rv implies static_map_of(
        s.push((input, resolved)),
    ) == (if static_map_of(s).dom().contains(input) {
        static_map_of(s)
    } else {
        static_map_of(s).insert(input, rv)
    }) by {
        if s.len() == 0 {
            assert(s.push((input, resolved)).drop_first() =~= Seq::<
                (TransactionInput, ResolvedInput),
            >::empty());
            assert(static_map_of(
                Seq::<(TransactionInput, ResolvedInput)>::empty(),
            ) == Map::<TransactionInput, ResolvedInputView>::empty());
            assert(s.push((input, resolved))[0] == (input, resolved));
            assert(static_map_of(s.push((input, resolved))) == Map::<
                TransactionInput,
                ResolvedInputView,
            >::empty().insert(input, rv));
            assert(static_map_of(s.push((input, resolved))) =~= static_map_of(s).insert(
                input,
                rv,
            ));
        } else {
            assert(s.push((input, resolved)).drop_first() =~= s.drop_first().push(
                (input, resolved),
            ));
            lemma_static_map_push(s.drop_first(), input, rv);
            let inner = static_map_of(s.drop_first());
            if inner.dom().contains(input) {
                assert(static_map_of(s.push((input, resolved))) =~= static_map_of(s));
            } else {
                if s[0].0 == input {
                    assert(static_map_of(s.push((input, resolved))) =~= static_map_of(s));
                } else {
                    assert(static_map_of(s.push((input, resolved))) =~= static_map_of(s).insert(
                        input,
                        rv,
                    ));
                }
            }
        }
    }
}

impl ScriptHost for StaticHost {
    closed spec fn spec_height(&self) -> Option<u64> {
        self.current_height
    }

    closed spec fn spec_utxos(&self) -> Map<TransactionInput, ResolvedInputView> {
        static_map_of(self.entries@)
    }

    fn current_height(&self) -> (r: Option<u64>) {
        self.current_height
    }

    fn input_utxo(&self, input: &TransactionInput) -> (r: Option<ResolvedInput>) {
        let mut i: usize = 0;
        proof {
            assert(self.entries@.skip(0) =~= self.entries@);
        }
        while i < self.entries.len()
            invariant
                0 <= i <= self.entries@.len(),
                static_map_of(self.entries@).dom().contains(*input) == static_map_of(
                    self.entries@.skip(i as int),
                ).dom().contains(*input),
                static_map_of(self.entries@).dom().contains(*input) ==> static_map_of(
                    self.entries@,
                )[*input] == static_map_of(self.entries@.skip(i as int))[*input],
            decreases self.entries@.len() - i,
        {
            let ghost tail = self.entries@.skip(i as int);
            proof {
                assert(tail.len() > 0);
                assert(tail[0] == self.entries@[i as int]);
                assert(tail.drop_first() =~= self.entries@.skip(i + 1));
            }
            if crate::types::input_eq(&self.entries[i].0, input) {
                let out = crate::types::copy_output(&self.entries[i].1.output);
                let r = ResolvedInput {
                    output: out,
                    created_height: self.entries[i].1.created_height,
                };
                proof {
                    assert(static_map_of(tail) == static_map_of(tail.drop_first()).insert(
                        self.entries@[i as int].0,
                        self.entries@[i as int].1@,
                    ));
                    assert(static_map_of(tail)[*input] == self.entries@[i as int].1@);
                    assert(r@ =~= self.entries@[i as int].1@);
                }
                return Some(r);
            }
            i = i + 1;
        }
        proof {
            assert(self.entries@.skip(self.entries@.len() as int) =~= Seq::<
                (TransactionInput, ResolvedInput),
            >::empty());
        }
        None
    }
}

} // verus!
