use qcoin::crypto::{Dilithium2Scheme, PqSignatureScheme};
use qcoin::script::{
    encode_script, DeterministicScriptEngine, OpCode, ResolvedInput, Script, ScriptContext,
    ScriptEngine, ScriptError, StaticHost, VmConfig,
};
use qcoin::types::{
    AssetAmount, AssetId, Output, SighashFlags, Transaction, TransactionCore, TransactionInput,
    TransactionKind, TransactionWitness,
};

fn sample_tx() -> (Transaction, TransactionInput) {
    let input = TransactionInput {
        tx_id: [1u8; 32],
        index: 0,
    };

    let tx = Transaction {
        core: TransactionCore {
            kind: TransactionKind::Transfer,
            inputs: vec![input],
            outputs: vec![Output {
                owner_script_hash: [2u8; 32],
                assets: vec![AssetAmount {
                    asset_id: AssetId([3u8; 32]),
                    amount: 10,
                }],
                metadata_hash: None,
            }],
        },
        witness: TransactionWitness::default(),
    };

    (tx, input)
}

fn default_engine() -> DeterministicScriptEngine {
    DeterministicScriptEngine::default()
}

fn u64_le_bytes(value: u64) -> Vec<u8> {
    value.to_le_bytes().to_vec()
}

fn script_hash(script: &Script) -> qcoin::hashing::Hash256 {
    *blake3::hash(&encode_script(script)).as_bytes()
}

#[test]
fn checks_signature_successfully() {
    let scheme = Dilithium2Scheme;
    let (pk, sk) = scheme.keygen().expect("keygen should work");

    let (tx, input) = sample_tx();
    let script = Script(vec![
        OpCode::PushBytes(pk.to_bytes().expect("pk to bytes")),
        OpCode::PushBytes(Vec::new()),
        OpCode::CheckSig,
    ]);

    let script_hash = script_hash(&script);
    let prev_output = tx.core.outputs[0].clone();
    let sighash = tx.sighash(0, &prev_output, script_hash, 0, SighashFlags::default());
    let signature = scheme.sign(&sk, &sighash).expect("signing should work");

    let script = Script(vec![
        OpCode::PushBytes(pk.to_bytes().expect("pk to bytes")),
        OpCode::PushBytes(signature.to_bytes().expect("sig to bytes")),
        OpCode::CheckSig,
    ]);

    let host = StaticHost::new(Some(10)).with_input(
        input,
        ResolvedInput {
            output: tx.core.outputs[0].clone(),
            created_height: Some(1),
        },
    );

    let ctx = ScriptContext {
        tx,
        input_index: 0,
        current_height: Some(10),
        chain_id: 0,
        script_hash,
    };

    let engine = default_engine();
    let result = engine.eval(&script, &ctx, &host);

    assert!(result.is_ok());
}

#[test]
fn rejects_invalid_signature() {
    let scheme = Dilithium2Scheme;
    let (pk, sk) = scheme.keygen().expect("keygen should work");

    let (tx, input) = sample_tx();
    let bad_signature = scheme
        .sign(&sk, b"wrong message")
        .expect("signing should work");

    let script = Script(vec![
        OpCode::PushBytes(pk.to_bytes().expect("pk to bytes")),
        OpCode::PushBytes(bad_signature.to_bytes().expect("sig to bytes")),
        OpCode::CheckSig,
    ]);

    let script_hash = script_hash(&script);

    let host = StaticHost::new(Some(5)).with_input(
        input,
        ResolvedInput {
            output: tx.core.outputs[0].clone(),
            created_height: Some(0),
        },
    );

    let ctx = ScriptContext {
        tx,
        input_index: 0,
        current_height: Some(5),
        chain_id: 0,
        script_hash,
    };

    let engine = default_engine();
    let result = engine.eval(&script, &ctx, &host);

    assert!(matches!(result, Err(ScriptError::Evaluation(_))));
}

#[test]
fn enforces_absolute_timelock() {
    let (tx, input) = sample_tx();
    let required_height = 11u64;
    let script = Script(vec![
        OpCode::PushBytes(u64_le_bytes(required_height)),
        OpCode::CheckTimeLock,
    ]);

    let script_hash = script_hash(&script);

    let host = StaticHost::new(Some(10)).with_input(
        input,
        ResolvedInput {
            output: tx.core.outputs[0].clone(),
            created_height: Some(0),
        },
    );

    let ctx = ScriptContext {
        tx: tx.clone(),
        input_index: 0,
        current_height: Some(10),
        chain_id: 0,
        script_hash,
    };

    let engine = default_engine();
    let result = engine.eval(&script, &ctx, &host);
    assert!(matches!(result, Err(ScriptError::Evaluation(_))));

    let host = StaticHost::new(Some(12)).with_input(
        input,
        ResolvedInput {
            output: tx.core.outputs[0].clone(),
            created_height: Some(0),
        },
    );
    let ctx = ScriptContext {
        tx,
        input_index: 0,
        current_height: Some(12),
        chain_id: 0,
        script_hash,
    };

    let result = engine.eval(&script, &ctx, &host);
    assert!(result.is_ok());
}

#[test]
fn enforces_relative_timelock_using_host() {
    let (tx, input) = sample_tx();
    let script = Script(vec![
        OpCode::PushBytes(u64_le_bytes(3)),
        OpCode::CheckRelativeTimeLock,
    ]);

    let resolved = ResolvedInput {
        output: tx.core.outputs[0].clone(),
        created_height: Some(5),
    };

    let script_hash = script_hash(&script);

    let host = StaticHost::new(Some(7)).with_input(input, resolved.clone());
    let ctx = ScriptContext {
        tx: tx.clone(),
        input_index: 0,
        current_height: Some(7),
        chain_id: 0,
        script_hash,
    };
    let engine = default_engine();
    let result = engine.eval(&script, &ctx, &host);
    assert!(matches!(result, Err(ScriptError::Evaluation(_))));

    let host = StaticHost::new(Some(9)).with_input(input, resolved);
    let ctx = ScriptContext {
        tx,
        input_index: 0,
        current_height: Some(9),
        chain_id: 0,
        script_hash,
    };
    let result = engine.eval(&script, &ctx, &host);
    assert!(result.is_ok());
}

#[test]
fn validates_hashlock_preimage() {
    let (tx, input) = sample_tx();
    let preimage = b"super-secret".to_vec();
    let expected_hash = blake3::hash(&preimage).as_bytes().to_vec();

    let script = Script(vec![
        OpCode::PushBytes(expected_hash.clone()),
        OpCode::PushBytes(preimage.clone()),
        OpCode::CheckHashLock,
    ]);

    let script_hash = script_hash(&script);

    let host = StaticHost::new(Some(1)).with_input(
        input,
        ResolvedInput {
            output: tx.core.outputs[0].clone(),
            created_height: Some(0),
        },
    );
    let ctx = ScriptContext {
        tx,
        input_index: 0,
        current_height: Some(1),
        chain_id: 0,
        script_hash,
    };
    let engine = default_engine();
    let result = engine.eval(&script, &ctx, &host);
    assert!(result.is_ok());

    let tampered_script = Script(vec![
        OpCode::PushBytes(expected_hash),
        OpCode::PushBytes(b"wrong".to_vec()),
        OpCode::CheckHashLock,
    ]);
    let result = engine.eval(&tampered_script, &ctx, &host);
    assert!(matches!(result, Err(ScriptError::Evaluation(_))));
}

#[test]
fn halts_when_out_of_gas() {
    let (tx, input) = sample_tx();
    let script = Script(vec![OpCode::Nop; 10]);

    let script_hash = script_hash(&script);

    let host = StaticHost::new(Some(0)).with_input(
        input,
        ResolvedInput {
            output: tx.core.outputs[0].clone(),
            created_height: Some(0),
        },
    );
    let ctx = ScriptContext {
        tx,
        input_index: 0,
        current_height: Some(0),
        chain_id: 0,
        script_hash,
    };

    let engine = DeterministicScriptEngine::with_config(VmConfig {
        max_gas: 5,
        ..VmConfig::default()
    });

    let result = engine.eval(&script, &ctx, &host);
    assert!(matches!(result, Err(ScriptError::OutOfGas)));
}

#[test]
fn underflows_on_missing_operands() {
    let (tx, input) = sample_tx();
    let script = Script(vec![OpCode::CheckHashLock]);
    let script_hash = script_hash(&script);
    let host = StaticHost::new(Some(0)).with_input(
        input,
        ResolvedInput {
            output: tx.core.outputs[0].clone(),
            created_height: Some(0),
        },
    );
    let ctx = ScriptContext {
        tx,
        input_index: 0,
        current_height: Some(0),
        chain_id: 0,
        script_hash,
    };
    let result = default_engine().eval(&script, &ctx, &host);
    assert!(matches!(result, Err(ScriptError::StackUnderflow)));
}

#[test]
fn overflows_a_bounded_stack() {
    let (tx, input) = sample_tx();
    let script = Script(vec![
        OpCode::PushBytes(vec![1]),
        OpCode::PushBytes(vec![2]),
    ]);
    let script_hash = script_hash(&script);
    let host = StaticHost::new(Some(0)).with_input(
        input,
        ResolvedInput {
            output: tx.core.outputs[0].clone(),
            created_height: Some(0),
        },
    );
    let ctx = ScriptContext {
        tx,
        input_index: 0,
        current_height: Some(0),
        chain_id: 0,
        script_hash,
    };
    let engine = DeterministicScriptEngine::with_config(VmConfig {
        max_stack_items: 1,
        ..VmConfig::default()
    });
    let result = engine.eval(&script, &ctx, &host);
    assert!(matches!(result, Err(ScriptError::StackOverflow)));
}

#[test]
fn rejects_overlong_scripts() {
    let (tx, input) = sample_tx();
    let script = Script(vec![OpCode::Nop, OpCode::Nop]);
    let script_hash = script_hash(&script);
    let host = StaticHost::new(Some(0)).with_input(
        input,
        ResolvedInput {
            output: tx.core.outputs[0].clone(),
            created_height: Some(0),
        },
    );
    let ctx = ScriptContext {
        tx,
        input_index: 0,
        current_height: Some(0),
        chain_id: 0,
        script_hash,
    };
    let engine = DeterministicScriptEngine::with_config(VmConfig {
        max_script_len: 1,
        ..VmConfig::default()
    });
    let result = engine.eval(&script, &ctx, &host);
    assert!(matches!(result, Err(ScriptError::ScriptTooLarge)));
}

#[test]
fn gas_cost_charges_per_pushed_byte() {
    let (tx, input) = sample_tx();
    // one 4-byte push (cost 10 + 4) and one no-op (cost 1)
    let script = Script(vec![OpCode::PushBytes(vec![1, 2, 3, 4]), OpCode::Nop]);
    let script_hash = script_hash(&script);
    let host = StaticHost::new(Some(0)).with_input(
        input,
        ResolvedInput {
            output: tx.core.outputs[0].clone(),
            created_height: Some(0),
        },
    );
    let ctx = ScriptContext {
        tx,
        input_index: 0,
        current_height: Some(0),
        chain_id: 0,
        script_hash,
    };
    let result = default_engine().eval(&script, &ctx, &host);
    assert_eq!(result.expect("evaluation should pass").gas_consumed, 15);
}

#[test]
fn script_decoding_inverts_encoding() {
    let script = Script(vec![
        OpCode::CheckSig,
        OpCode::CheckMultiSig {
            threshold: 2,
            total: 3,
        },
        OpCode::PushBytes(vec![7, 8, 9]),
        OpCode::CheckTimeLock,
        OpCode::CheckRelativeTimeLock,
        OpCode::CheckHashLock,
        OpCode::Nop,
    ]);
    let encoded = encode_script(&script);
    let (decoded, used) =
        qcoin::script::decode_script(&encoded, 0).expect("decoding should succeed");
    assert_eq!(used, encoded.len());
    assert_eq!(decoded, script);
}

#[test]
fn checks_a_two_of_two_multisig() {
    let scheme = Dilithium2Scheme;
    let (pk_a, sk_a) = scheme.keygen().expect("keygen should work");
    let (pk_b, sk_b) = scheme.keygen().expect("keygen should work");

    let (tx, input) = sample_tx();
    let placeholder = Script(vec![OpCode::CheckMultiSig {
        threshold: 2,
        total: 2,
    }]);
    let script_hash = script_hash(&placeholder);
    let prev_output = tx.core.outputs[0].clone();
    let sighash = tx.sighash(0, &prev_output, script_hash, 0, SighashFlags::default());
    let sig_a = scheme.sign(&sk_a, &sighash).expect("signing should work");
    let sig_b = scheme.sign(&sk_b, &sighash).expect("signing should work");

    // keys are pushed first (key B deepest), then signatures, signature A on top
    let script = Script(vec![
        OpCode::PushBytes(pk_b.to_bytes().expect("pk to bytes")),
        OpCode::PushBytes(pk_a.to_bytes().expect("pk to bytes")),
        OpCode::PushBytes(sig_b.to_bytes().expect("sig to bytes")),
        OpCode::PushBytes(sig_a.to_bytes().expect("sig to bytes")),
        OpCode::CheckMultiSig {
            threshold: 2,
            total: 2,
        },
    ]);

    let host = StaticHost::new(Some(10)).with_input(
        input,
        ResolvedInput {
            output: prev_output,
            created_height: Some(1),
        },
    );
    let ctx = ScriptContext {
        tx,
        input_index: 0,
        current_height: Some(10),
        chain_id: 0,
        script_hash,
    };
    let result = default_engine().eval(&script, &ctx, &host);
    assert!(result.is_ok());

    // swapping one signature for a signature of the wrong message fails
    let bad_sig = scheme.sign(&sk_a, b"other").expect("signing should work");
    let bad_script = Script(vec![
        OpCode::PushBytes(pk_b.to_bytes().expect("pk to bytes")),
        OpCode::PushBytes(pk_a.to_bytes().expect("pk to bytes")),
        OpCode::PushBytes(sig_b.to_bytes().expect("sig to bytes")),
        OpCode::PushBytes(bad_sig.to_bytes().expect("sig to bytes")),
        OpCode::CheckMultiSig {
            threshold: 2,
            total: 2,
        },
    ]);
    let result = default_engine().eval(&bad_script, &ctx, &host);
    assert!(matches!(result, Err(ScriptError::Evaluation(_))));
}

#[test]
fn rejects_a_zero_multisig_threshold() {
    let (tx, input) = sample_tx();
    let script = Script(vec![OpCode::CheckMultiSig {
        threshold: 0,
        total: 1,
    }]);
    let script_hash = script_hash(&script);
    let host = StaticHost::new(Some(0)).with_input(
        input,
        ResolvedInput {
            output: tx.core.outputs[0].clone(),
            created_height: Some(0),
        },
    );
    let ctx = ScriptContext {
        tx,
        input_index: 0,
        current_height: Some(0),
        chain_id: 0,
        script_hash,
    };
    let result = default_engine().eval(&script, &ctx, &host);
    assert!(matches!(result, Err(ScriptError::Evaluation(_))));
}

#[test]
fn rejects_pushes_beyond_the_byte_limit() {
    let (tx, input) = sample_tx();
    let script = Script(vec![OpCode::PushBytes(vec![0u8; 8])]);
    let script_hash = script_hash(&script);
    let host = StaticHost::new(Some(0)).with_input(
        input,
        ResolvedInput {
            output: tx.core.outputs[0].clone(),
            created_height: Some(0),
        },
    );
    let ctx = ScriptContext {
        tx,
        input_index: 0,
        current_height: Some(0),
        chain_id: 0,
        script_hash,
    };
    let engine = DeterministicScriptEngine::with_config(VmConfig {
        max_push_bytes: 4,
        ..VmConfig::default()
    });
    let result = engine.eval(&script, &ctx, &host);
    assert!(matches!(result, Err(ScriptError::Evaluation(_))));
}

#[test]
fn timelock_takes_the_greater_of_host_and_context_heights() {
    let (tx, input) = sample_tx();
    let script = Script(vec![
        OpCode::PushBytes(u64_le_bytes(8)),
        OpCode::CheckTimeLock,
    ]);
    let script_hash = script_hash(&script);
    let resolved = ResolvedInput {
        output: tx.core.outputs[0].clone(),
        created_height: Some(0),
    };

    // host says 5, context says 10: the greater (10) satisfies the lock at 8
    let host = StaticHost::new(Some(5)).with_input(input, resolved.clone());
    let ctx = ScriptContext {
        tx: tx.clone(),
        input_index: 0,
        current_height: Some(10),
        chain_id: 0,
        script_hash,
    };
    assert!(default_engine().eval(&script, &ctx, &host).is_ok());

    // host says 10, context says 5: still satisfied
    let host = StaticHost::new(Some(10)).with_input(input, resolved.clone());
    let ctx = ScriptContext {
        tx: tx.clone(),
        input_index: 0,
        current_height: Some(5),
        chain_id: 0,
        script_hash,
    };
    assert!(default_engine().eval(&script, &ctx, &host).is_ok());

    // both below the required height: rejected
    let host = StaticHost::new(Some(5)).with_input(input, resolved);
    let ctx = ScriptContext {
        tx,
        input_index: 0,
        current_height: Some(6),
        chain_id: 0,
        script_hash,
    };
    let result = default_engine().eval(&script, &ctx, &host);
    assert!(matches!(result, Err(ScriptError::Evaluation(_))));
}

#[test]
fn relative_timelock_takes_the_greater_of_host_and_context_heights() {
    let (tx, input) = sample_tx();
    let script = Script(vec![
        OpCode::PushBytes(u64_le_bytes(3)),
        OpCode::CheckRelativeTimeLock,
    ]);
    let script_hash = script_hash(&script);
    let resolved = ResolvedInput {
        output: tx.core.outputs[0].clone(),
        created_height: Some(5),
    };

    // host says 4, context says 9: the greater (9) reaches 5 + 3
    let host = StaticHost::new(Some(4)).with_input(input, resolved);
    let ctx = ScriptContext {
        tx,
        input_index: 0,
        current_height: Some(9),
        chain_id: 0,
        script_hash,
    };
    assert!(default_engine().eval(&script, &ctx, &host).is_ok());
}
