use orca_pools::layout::{unpack_from_slice, ProgramError, LAYOUT_LEN};

fn counting() -> Vec<u8> {
    (0..LAYOUT_LEN).map(|i| (i % 251) as u8).collect()
}

fn thirty_two(start: usize) -> [u8; 32] {
    let mut bytes = [0u8; 32];
    for i in 0..32 {
        bytes[i] = ((start + i) % 251) as u8;
    }
    bytes
}

fn eight(start: usize) -> u64 {
    let mut bytes = [0u8; 8];
    for i in 0..8 {
        bytes[i] = ((start + i) % 251) as u8;
    }
    u64::from_le_bytes(bytes)
}

#[test]
fn every_field_has_its_place() {
    let layout = unpack_from_slice(&counting()).unwrap();
    assert_eq!(layout.version, 0);
    assert!(layout.is_initialized);
    assert_eq!(layout.bump_seed, 2);
    assert_eq!(layout.pool_token_program_id.bytes, thirty_two(3));
    assert_eq!(layout.token_account_a.bytes, thirty_two(35));
    assert_eq!(layout.token_account_b.bytes, thirty_two(67));
    assert_eq!(layout.token_pool.bytes, thirty_two(99));
    assert_eq!(layout.mint_a.bytes, thirty_two(131));
    assert_eq!(layout.mint_b.bytes, thirty_two(163));
    assert_eq!(layout.fee_account.bytes, thirty_two(195));
    assert_eq!(layout.trade_fee_numerator, eight(227));
    assert_eq!(layout.trade_fee_denominator, eight(235));
    assert_eq!(layout.owner_trade_fee_numerator, eight(243));
    assert_eq!(layout.owner_trade_fee_denominator, eight(251));
    assert_eq!(layout.owner_withdraw_fee_numerator, eight(259));
    assert_eq!(layout.owner_withdraw_fee_denominator, eight(267));
    assert_eq!(layout.host_fee_numerator, eight(275));
    assert_eq!(layout.host_fee_denominator, eight(283));
    assert_eq!(layout.curve_type, 40);
    assert_eq!(layout.curve_parameters, thirty_two(292));
}

#[test]
fn numbers_have_the_lowest_byte_first() {
    let mut data = vec![0u8; LAYOUT_LEN];
    data[227] = 25;
    data[235] = 0x10;
    data[236] = 0x27;
    data[290] = 0xff;
    let layout = unpack_from_slice(&data).unwrap();
    assert_eq!(layout.trade_fee_numerator, 25);
    assert_eq!(layout.trade_fee_denominator, 10000);
    assert_eq!(layout.host_fee_denominator, 0xff00_0000_0000_0000);
}

#[test]
fn any_byte_but_zero_sets_the_flag() {
    let mut data = vec![0u8; LAYOUT_LEN];
    assert!(!unpack_from_slice(&data).unwrap().is_initialized);
    data[1] = 1;
    assert!(unpack_from_slice(&data).unwrap().is_initialized);
    data[1] = 200;
    assert!(unpack_from_slice(&data).unwrap().is_initialized);
}

#[test]
fn short_data_holds_no_pool() {
    let data = vec![1u8; LAYOUT_LEN - 1];
    assert_eq!(unpack_from_slice(&data).unwrap_err(), ProgramError::InvalidAccountData);
    assert_eq!(unpack_from_slice(&[]).unwrap_err(), ProgramError::InvalidAccountData);
}

#[test]
fn a_changed_byte_changes_the_pool() {
    let data = counting();
    let before = format!("{:?}", unpack_from_slice(&data).unwrap());
    for i in 0..LAYOUT_LEN {
        let mut changed = data.clone();
        changed[i] = changed[i].wrapping_add(1);
        let after = format!("{:?}", unpack_from_slice(&changed).unwrap());
        assert_eq!(before == after, i == 1);
    }
}
