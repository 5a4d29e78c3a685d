use orca_pools::fetch::{AccountOutcome, BatchFailure, PoolFetch};
use orca_pools::keys::{from_Pubkey, Pubkey};
use orca_pools::layout::{unpack_from_slice, ProgramError, TokenSwapLayout, LAYOUT_LEN};
use orca_pools::markets::{toPairString, Dex, DexLabel, PoolItem};
use orca_pools::orca::{pool_accounts, skip_reason, OrcaDex, Pool, SkipReason};
use solana_program::pubkey::ParsePubkeyError;

fn account(mint_a: u8, mint_b: u8, numerator: u64, denominator: u64) -> Vec<u8> {
    let mut data = vec![0u8; LAYOUT_LEN];
    data[0] = 1;
    data[1] = 1;
    for i in 0..32 {
        data[35 + i] = 101;
        data[67 + i] = 102;
        data[99 + i] = 103;
        data[131 + i] = mint_a;
        data[163 + i] = mint_b;
    }
    data[227..235].copy_from_slice(&numerator.to_le_bytes());
    data[235..243].copy_from_slice(&denominator.to_le_bytes());
    data
}

fn pool(mint_a: u8, mint_b: u8, numerator: u64, denominator: u64) -> TokenSwapLayout {
    unpack_from_slice(&account(mint_a, mint_b, numerator, denominator)).unwrap()
}

fn text(byte: u8) -> String {
    from_Pubkey(Pubkey { bytes: [byte; 32] })
}

fn listed(pool_account: &str) -> Pool {
    Pool { pool_account: pool_account.to_string(), ..Pool::default() }
}

#[test]
fn a_pool_is_listed_and_filed() {
    let orca = OrcaDex::new(Dex::new(), &[pool(1, 2, 30, 10000)]);
    assert_eq!(orca.pools.len(), 1);
    let item = &orca.pools[0];
    assert_eq!(item.mintA, text(1));
    assert_eq!(item.mintB, text(2));
    assert_eq!(item.vaultA, text(101));
    assert_eq!(item.vaultB, text(102));
    assert_eq!(item.tradeFeeRate, 30);
    let pair = toPairString(text(1), text(2));
    let list = orca.dex.markets_of(&pair).unwrap();
    assert_eq!(list.len(), 1);
    let market = &list[0];
    assert_eq!(market.tokenMintA, text(1));
    assert_eq!(market.tokenVaultA, text(101));
    assert_eq!(market.tokenMintB, text(2));
    assert_eq!(market.tokenVaultB, text(102));
    assert_eq!(market.fee, 30);
    assert_eq!(market.dexLabel, DexLabel::ORCA);
    assert_eq!(market.id, text(103));
    assert!(market.account_data.is_none());
    assert!(market.liquidity.is_none());
}

#[test]
fn unusable_pools_are_passed_over() {
    let mut asleep = pool(1, 2, 30, 10000);
    asleep.is_initialized = false;
    assert_eq!(skip_reason(&asleep), Some(SkipReason::Uninitialized));
    assert_eq!(skip_reason(&pool(1, 2, 30, 0)), Some(SkipReason::ZeroFeeDenominator));
    assert_eq!(skip_reason(&pool(3, 4, 25, 10000)), None);
    let orca = OrcaDex::new(Dex::new(), &[asleep, pool(1, 2, 30, 0), pool(3, 4, 25, 10000)]);
    assert_eq!(orca.pools.len(), 1);
    assert_eq!(orca.pools[0].mintA, text(3));
    assert_eq!(orca.dex.pairToMarkets.len(), 1);
    assert!(orca.dex.markets_of(&toPairString(text(1), text(2))).is_none());
}

#[test]
fn both_directions_of_a_pair_share_a_list() {
    let orca = OrcaDex::new(
        Dex::new(),
        &[pool(1, 2, 30, 10000), pool(5, 6, 1, 100), pool(2, 1, 20, 10000)],
    );
    let list = orca.dex.markets_of(&toPairString(text(1), text(2))).unwrap();
    let fees: Vec<u64> = list.iter().map(|m| m.fee).collect();
    assert_eq!(fees, vec![30, 20]);
    assert_eq!(orca.pools.len(), 3);
}

#[test]
fn lots_add_up() {
    let pools = [pool(1, 2, 30, 10000), pool(3, 4, 1, 3), pool(1, 2, 25, 10000)];
    let at_once = OrcaDex::new(Dex::new(), &pools);
    let mut dex = Dex::new();
    let mut items: Vec<PoolItem> = Vec::new();
    OrcaDex::process_pools(&pools[..1], &mut items, &mut dex);
    OrcaDex::process_pools(&pools[1..], &mut items, &mut dex);
    let rates: Vec<u128> = items.iter().map(|i| i.tradeFeeRate).collect();
    assert_eq!(rates, vec![30, 3333, 25]);
    assert_eq!(at_once.pools.len(), items.len());
    let pair = toPairString(text(1), text(2));
    assert_eq!(
        format!("{:?}", at_once.dex.markets_of(&pair)),
        format!("{:?}", dex.markets_of(&pair))
    );
}

#[test]
fn a_fee_beyond_the_market_is_capped() {
    let orca = OrcaDex::new(Dex::new(), &[pool(1, 2, u64::MAX, 1)]);
    assert_eq!(orca.pools[0].tradeFeeRate, 184467440737095516160000);
    let list = orca.dex.markets_of(&toPairString(text(1), text(2))).unwrap();
    assert_eq!(list[0].fee, u64::MAX);
}

#[test]
fn addresses_are_read_in_order() {
    let keys = pool_accounts(&[
        listed("So11111111111111111111111111111111111111112"),
        listed("11111111111111111111111111111111"),
    ])
    .unwrap();
    assert_eq!(keys.len(), 2);
    assert_eq!(from_Pubkey(keys[0]), "So11111111111111111111111111111111111111112");
    assert_eq!(keys[1].bytes, [0; 32]);
    assert!(pool_accounts(&[]).unwrap().is_empty());
}

#[test]
fn the_first_bad_address_is_reported() {
    let r = pool_accounts(&[
        listed("11111111111111111111111111111111"),
        listed("1"),
        listed("not base 58"),
    ]);
    assert_eq!(r.unwrap_err().cause, ParsePubkeyError::WrongSize);
    let r = pool_accounts(&[listed("not base 58"), listed("1")]);
    assert_eq!(r.unwrap_err().cause, ParsePubkeyError::Invalid);
}

fn keys(n: usize) -> Vec<Pubkey> {
    (0..n)
        .map(|i| {
            let mut bytes = [0u8; 32];
            bytes[0] = (i % 256) as u8;
            bytes[1] = (i / 256) as u8;
            Pubkey { bytes }
        })
        .collect()
}

#[test]
fn batches_cover_the_addresses() {
    for (n, sizes) in vec![
        (0usize, vec![]),
        (1, vec![1usize]),
        (99, vec![99]),
        (100, vec![100]),
        (101, vec![100, 1]),
        (250, vec![100, 100, 50]),
        (300, vec![100, 100, 100]),
    ] {
        let all = keys(n);
        let mut fetch = PoolFetch::new(all.clone());
        assert_eq!(fetch.total_batches(), sizes.len());
        let mut seen: Vec<Pubkey> = Vec::new();
        let mut found: Vec<usize> = Vec::new();
        while let Some(batch) = fetch.next_batch() {
            assert_eq!(fetch.batches_done(), found.len());
            found.push(batch.len());
            seen.extend(batch);
            fetch.absorb(&Vec::new());
        }
        assert_eq!(found, sizes);
        assert_eq!(seen, all);
    }
}

#[test]
fn replies_are_sorted_out() {
    let mut fetch = PoolFetch::new(keys(150));
    let outcomes = fetch.absorb(&vec![
        Some(account(1, 2, 1, 1)),
        None,
        Some(vec![0u8; 10]),
        Some(account(3, 4, 1, 1)),
    ]);
    assert_eq!(
        outcomes,
        vec![
            AccountOutcome::Unpacked,
            AccountOutcome::Missing,
            AccountOutcome::Unreadable(ProgramError::InvalidAccountData),
            AccountOutcome::Unpacked,
        ]
    );
    fetch.absorb(&vec![Some(account(5, 6, 1, 1))]);
    assert!(fetch.next_batch().is_none());
    let mints: Vec<u8> = fetch.into_pools().iter().map(|p| p.mint_a.bytes[0]).collect();
    assert_eq!(mints, vec![1, 3, 5]);
}

#[test]
fn batching_keeps_the_order_of_the_list() {
    let mut fetch = PoolFetch::new(keys(250));
    while let Some(batch) = fetch.next_batch() {
        let reply: Vec<Option<Vec<u8>>> = batch
            .iter()
            .map(|key| {
                if key.bytes[0] % 2 == 0 {
                    Some(account(key.bytes[0], 0, 1, 1))
                } else {
                    None
                }
            })
            .collect();
        fetch.absorb(&reply);
    }
    let read: Vec<u8> = fetch.into_pools().iter().map(|p| p.mint_a.bytes[0]).collect();
    let expected: Vec<u8> = (0..250u32).filter(|i| i % 2 == 0).map(|i| i as u8).collect();
    assert_eq!(read, expected);
}

#[test]
fn a_failed_batch_ends_the_reading() {
    let fetch = PoolFetch::new(keys(250));
    let reply: Result<Vec<Option<Vec<u8>>>, &str> = Ok(vec![Some(account(1, 2, 1, 1)), None]);
    let (fetch, outcomes) = fetch.on_reply(reply).unwrap();
    assert_eq!(outcomes, vec![AccountOutcome::Unpacked, AccountOutcome::Missing]);
    assert_eq!(fetch.batches_done(), 1);
    assert_eq!(fetch.next_batch().unwrap()[0].bytes[0], 100);
    match fetch.on_reply(Err("unreachable")) {
        Err(BatchFailure { number, cause }) => assert_eq!((number, cause), (2, "unreachable")),
        Ok(_) => panic!("the second batch failed"),
    }
}

#[test]
fn every_reply_that_came_is_kept() {
    let mut fetch = PoolFetch::new(keys(101));
    for mint in vec![7u8, 8] {
        let reply: Result<Vec<Option<Vec<u8>>>, &str> = Ok(vec![Some(account(mint, 2, 1, 1))]);
        fetch = fetch.on_reply(reply).ok().unwrap().0;
    }
    assert!(fetch.next_batch().is_none());
    let mints: Vec<u8> = fetch.into_pools().iter().map(|p| p.mint_a.bytes[0]).collect();
    assert_eq!(mints, vec![7, 8]);
}

#[test]
fn items_and_markets_grow_alike() {
    let pools = [
        pool(1, 2, 30, 10000),
        pool(2, 1, 30, 0),
        pool(2, 1, 25, 10000),
        pool(5, 6, 1, 100),
        pool(1, 2, 1, 3),
    ];
    let orca = OrcaDex::new(Dex::new(), &pools);
    let filed: usize =
        orca.dex.pairToMarkets.into_entries().iter().map(|(_, list)| list.len()).sum();
    assert_eq!(orca.pools.len(), 4);
    assert_eq!(filed, 4);
}
