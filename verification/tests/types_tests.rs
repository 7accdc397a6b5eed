use qcoin::types::{
    create_asset_transaction, derive_asset_id, AssetAmount, AssetId, AssetKind, Output,
    Transaction, TransactionCore, TransactionKind, TransactionWitness,
};

fn base_transaction() -> Transaction {
    Transaction {
        core: TransactionCore {
            kind: TransactionKind::Transfer,
            inputs: vec![],
            outputs: vec![Output {
                owner_script_hash: [0u8; 32],
                assets: vec![AssetAmount {
                    asset_id: AssetId([2u8; 32]),
                    amount: 10,
                }],
                metadata_hash: None,
            }],
        },
        witness: TransactionWitness::default(),
    }
}

#[test]
fn transaction_id_changes_when_payload_changes() {
    let mut tx = base_transaction();
    let original_id = tx.tx_id();

    tx.core.outputs.push(Output {
        owner_script_hash: [1u8; 32],
        assets: vec![AssetAmount {
            asset_id: AssetId([3u8; 32]),
            amount: 1,
        }],
        metadata_hash: None,
    });

    let mutated_id = tx.tx_id();
    assert_ne!(original_id, mutated_id);
}

#[test]
fn create_asset_transaction_derives_expected_asset_id_and_supply() {
    let issuer_script_hash = [4u8; 32];
    let metadata_root = [9u8; 32];
    let destination_script_hash = [8u8; 32];
    let initial_supply = 500;
    let chain_id = 42;
    let (definition, transaction) = create_asset_transaction(
        issuer_script_hash,
        AssetKind::SemiFungible,
        metadata_root,
        Some(1_000),
        2,
        initial_supply,
        destination_script_hash,
        chain_id,
    );

    let asset_id = derive_asset_id(&definition, chain_id);

    assert!(matches!(
        transaction.core.kind,
        TransactionKind::CreateAsset { .. }
    ));
    assert!(transaction.core.inputs.is_empty());
    assert_eq!(transaction.core.outputs.len(), 1);

    assert_eq!(definition.kind, AssetKind::SemiFungible);
    assert_eq!(definition.issuer_script_hash, issuer_script_hash);
    assert_eq!(definition.metadata_root, metadata_root);
    assert_eq!(definition.max_supply, Some(1_000));
    assert_eq!(definition.decimals, 2);

    let minted_output = transaction
        .core
        .outputs
        .first()
        .expect("minted output should exist");
    assert_eq!(minted_output.owner_script_hash, destination_script_hash);
    assert_eq!(minted_output.assets.len(), 1);
    let minted_asset = minted_output
        .assets
        .first()
        .expect("minted asset amount should be present");
    assert_eq!(minted_asset.asset_id, asset_id);
    assert_eq!(minted_asset.amount, initial_supply);
    assert!(minted_output.metadata_hash.is_none());
}
