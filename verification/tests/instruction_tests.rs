use amm_ledger::errors::AmmError;
use amm_ledger::instruction::Operation;
use amm_ledger::instruction::PoolOperation;
use amm_ledger::instruction::SwapInstruction;
use amm_ledger::instruction::SwapType;

fn le(amount: u64) -> [u8; 8] {
    amount.to_le_bytes()
}

#[test]
fn swap_instruction_unpack_decodes_each_tag() {
    let mut bytes = vec![0u8];
    bytes.extend_from_slice(&le(77));
    let decoded = SwapInstruction::unpack(&bytes).unwrap();
    assert_eq!(decoded.swap_type, SwapType::SOLToToken);
    assert_eq!(decoded.amount, 77);

    bytes[0] = 1;
    assert_eq!(
        SwapInstruction::unpack(&bytes).unwrap().swap_type,
        SwapType::TokenToSOL
    );
    bytes[0] = 2;
    assert_eq!(
        SwapInstruction::unpack(&bytes).unwrap().swap_type,
        SwapType::TokenToToken
    );
}

#[test]
fn swap_instruction_unpack_reads_little_endian_amounts() {
    let mut bytes = vec![0u8];
    bytes.extend_from_slice(&[1, 2, 0, 0, 0, 0, 0, 0]);
    assert_eq!(SwapInstruction::unpack(&bytes).unwrap().amount, 513);
}

#[test]
fn swap_instruction_unpack_refuses_bad_tag_or_length() {
    let mut bytes = vec![3u8];
    bytes.extend_from_slice(&le(77));
    assert!(SwapInstruction::unpack(&bytes).is_none());
    assert!(SwapInstruction::unpack(&[]).is_none());
    assert!(SwapInstruction::unpack(&[0, 1, 2, 3]).is_none());
    let mut long = vec![0u8];
    long.extend_from_slice(&le(77));
    long.push(0);
    assert!(SwapInstruction::unpack(&long).is_none());
}

#[test]
fn pool_operation_unpack_decodes_add_and_remove() {
    let mut add = vec![0u8];
    add.extend_from_slice(&le(1000));
    add.extend_from_slice(&le(4000));
    assert_eq!(
        PoolOperation::unpack(&add),
        Some(PoolOperation::AddLiquidity { amount0: 1000, amount1: 4000 })
    );
    let mut remove = vec![1u8];
    remove.extend_from_slice(&le(2000));
    assert_eq!(
        PoolOperation::unpack(&remove),
        Some(PoolOperation::RemoveLiquidity { liquidity_amount: 2000 })
    );
}

#[test]
fn pool_operation_unpack_refuses_bad_tag_or_length() {
    assert_eq!(PoolOperation::unpack(&[]), None);
    let mut wrong_len = vec![0u8];
    wrong_len.extend_from_slice(&le(1000));
    assert_eq!(PoolOperation::unpack(&wrong_len), None);
    let mut bad_tag = vec![2u8];
    bad_tag.extend_from_slice(&le(1000));
    assert_eq!(PoolOperation::unpack(&bad_tag), None);
}

#[test]
fn operation_decode_covers_every_variant() {
    let mut transfer = vec![0u8];
    transfer.extend_from_slice(&le(100));
    assert_eq!(
        Operation::decode(&transfer),
        Ok(Operation::Transfer { amount: 100 })
    );

    let mut init_mint = vec![1u8, 6, 1];
    init_mint.extend_from_slice(&le(42));
    assert_eq!(
        Operation::decode(&init_mint),
        Ok(Operation::InitializeMint { decimals: 6, authority: Some(42) })
    );
    let mut no_authority = vec![1u8, 9, 0];
    no_authority.extend_from_slice(&le(0));
    assert_eq!(
        Operation::decode(&no_authority),
        Ok(Operation::InitializeMint { decimals: 9, authority: None })
    );

    let mut init_account = vec![2u8];
    init_account.extend_from_slice(&le(3));
    init_account.extend_from_slice(&le(42));
    assert_eq!(
        Operation::decode(&init_account),
        Ok(Operation::InitializeAccount { mint: 3, owner: 42 })
    );

    let mut add = vec![3u8];
    add.extend_from_slice(&le(1000));
    add.extend_from_slice(&le(4000));
    assert_eq!(
        Operation::decode(&add),
        Ok(Operation::AddLiquidity { amount0: 1000, amount1: 4000 })
    );

    let mut remove = vec![4u8];
    remove.extend_from_slice(&le(2000));
    assert_eq!(
        Operation::decode(&remove),
        Ok(Operation::RemoveLiquidity { shares: 2000 })
    );

    let mut swap_bytes = vec![5u8];
    swap_bytes.extend_from_slice(&le(100));
    swap_bytes.extend_from_slice(&le(360));
    swap_bytes.push(0);
    assert_eq!(
        Operation::decode(&swap_bytes),
        Ok(Operation::Swap { amount_in: 100, minimum_amount_out: 360, input_is_token0: true })
    );
    swap_bytes[17] = 1;
    assert_eq!(
        Operation::decode(&swap_bytes),
        Ok(Operation::Swap { amount_in: 100, minimum_amount_out: 360, input_is_token0: false })
    );
}

#[test]
fn operation_decode_refuses_malformed_requests() {
    assert_eq!(Operation::decode(&[]), Err(AmmError::MalformedOperation));
    assert_eq!(Operation::decode(&[9]), Err(AmmError::MalformedOperation));
    let mut short_transfer = vec![0u8, 1, 2];
    assert_eq!(
        Operation::decode(&short_transfer),
        Err(AmmError::MalformedOperation)
    );
    short_transfer.extend_from_slice(&[0; 10]);
    assert_eq!(
        Operation::decode(&short_transfer),
        Err(AmmError::MalformedOperation)
    );
    // A mint whose authority flag is neither present nor absent.
    let mut bad_flag = vec![1u8, 6, 2];
    bad_flag.extend_from_slice(&le(42));
    assert_eq!(Operation::decode(&bad_flag), Err(AmmError::MalformedOperation));
    // A swap whose direction byte names no direction.
    let mut bad_direction = vec![5u8];
    bad_direction.extend_from_slice(&le(100));
    bad_direction.extend_from_slice(&le(360));
    bad_direction.push(2);
    assert_eq!(
        Operation::decode(&bad_direction),
        Err(AmmError::MalformedOperation)
    );
}

#[test]
fn check_account_count_demands_the_exact_count() {
    let op = Operation::AddLiquidity { amount0: 1, amount1: 1 };
    assert_eq!(op.check_account_count(5), Ok(()));
    assert_eq!(op.check_account_count(4), Err(AmmError::WrongAccountCount));
    let transfer = Operation::Transfer { amount: 1 };
    assert_eq!(transfer.check_account_count(2), Ok(()));
    assert_eq!(transfer.check_account_count(3), Err(AmmError::WrongAccountCount));
    assert_eq!(
        Operation::InitializeMint { decimals: 0, authority: None }.account_count(),
        1
    );
    assert_eq!(Operation::InitializeAccount { mint: 0, owner: 0 }.account_count(), 1);
    assert_eq!(Operation::RemoveLiquidity { shares: 1 }.account_count(), 5);
    assert_eq!(
        Operation::Swap { amount_in: 1, minimum_amount_out: 0, input_is_token0: true }
            .account_count(),
        4
    );
}
