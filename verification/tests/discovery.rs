use orca_pools::discovery::{
    addresses_to_process, combine_markets, fetch_pools_from_exchange, DiscoveryStep, Exchange,
    PoolDiscovery, TokenDiscovery, TokenInArb, TokenStep,
};
use orca_pools::markets::{DexLabel, Market};
use orca_pools::refresh::{
    refresh_step, temporary_cache_file, RefreshError, RefreshEvent, RefreshStep, ORCA_CACHE_FILE,
};
use orca_pools::table::NameTable;

fn market(fee: u64) -> Market {
    Market {
        tokenMintA: String::new(),
        tokenVaultA: String::new(),
        tokenMintB: String::new(),
        tokenVaultB: String::new(),
        fee,
        dexLabel: DexLabel::RAYDIUM,
        id: String::new(),
        account_data: None,
        liquidity: None,
    }
}

fn found(list: &[(&str, u64)]) -> Vec<(String, Market)> {
    list.iter().map(|(id, fee)| (id.to_string(), market(*fee))).collect()
}

fn fees(table: NameTable<Market>) -> Vec<(String, u64)> {
    let mut list: Vec<(String, u64)> =
        table.into_entries().into_iter().map(|(id, m)| (id, m.fee)).collect();
    list.sort();
    list
}

fn tokens(addresses: &[&str]) -> Vec<TokenInArb> {
    addresses.iter().map(|a| TokenInArb { address: a.to_string() }).collect()
}

fn token_markets(list: &[(&str, u64)]) -> NameTable<Market> {
    fetch_pools_from_exchange(found(list), Vec::new())
}

#[test]
fn the_second_answer_prevails() {
    let table = fetch_pools_from_exchange(
        found(&[("x", 1), ("y", 2), ("x", 3)]),
        found(&[("y", 4), ("z", 5)]),
    );
    assert_eq!(
        fees(table),
        vec![("x".to_string(), 3), ("y".to_string(), 4), ("z".to_string(), 5)]
    );
}

#[test]
fn a_token_goes_through_every_exchange() {
    let mut discovery = TokenDiscovery::new();
    let mut asked: Vec<Exchange> = Vec::new();
    let mut pauses: Vec<u64> = Vec::new();
    loop {
        match discovery.step() {
            TokenStep::Fetch(exchange) => {
                asked.push(exchange);
                let fee = asked.len() as u64;
                let own = format!("{:?}", exchange);
                let n = discovery.answered(
                    found(&[("shared", fee)]),
                    found(&[(own.as_str(), fee), ("shared", fee * 10)]),
                );
                assert_eq!(n, 2);
            }
            TokenStep::Pause { millis } => {
                pauses.push(millis);
                discovery.rested();
            }
            TokenStep::Done => break,
        }
    }
    assert_eq!(asked, vec![Exchange::Orca, Exchange::Raydium, Exchange::Meteora]);
    assert_eq!(pauses, vec![500, 500, 500]);
    assert_eq!(
        fees(discovery.into_markets()),
        vec![
            ("Meteora".to_string(), 3),
            ("Orca".to_string(), 1),
            ("Raydium".to_string(), 2),
            ("shared".to_string(), 30),
        ]
    );
}

#[test]
fn the_first_token_has_no_turn() {
    assert_eq!(addresses_to_process(&tokens(&["sol", "a", "b"])), vec!["a", "b"]);
    assert!(addresses_to_process(&tokens(&["sol"])).is_empty());
    let discovery = PoolDiscovery::new(&tokens(&["sol"]));
    assert!(matches!(discovery.step(), DiscoveryStep::Done));
    assert_eq!(discovery.into_markets().len(), 0);
}

#[test]
fn both_ways_find_the_same() {
    let answers: Vec<Vec<(&str, u64)>> =
        vec![vec![("x", 1), ("y", 1)], vec![("y", 2), ("z", 2)], vec![("x", 3)]];
    let mut discovery = PoolDiscovery::new(&tokens(&["sol", "a", "b", "c"]));
    let mut turns: Vec<String> = Vec::new();
    let mut pauses: Vec<u64> = Vec::new();
    loop {
        match discovery.step() {
            DiscoveryStep::Discover(address) => {
                let answer = &answers[turns.len()];
                turns.push(address);
                assert_eq!(discovery.discovered(token_markets(answer)), answer.len());
            }
            DiscoveryStep::Pause { millis } => {
                pauses.push(millis);
                discovery.rested();
            }
            DiscoveryStep::Done => break,
        }
    }
    assert_eq!(turns, vec!["a", "b", "c"]);
    assert_eq!(pauses, vec![1000, 1000]);
    let sequential = fees(discovery.into_markets());
    assert_eq!(
        sequential,
        vec![("x".to_string(), 3), ("y".to_string(), 2), ("z".to_string(), 2)]
    );
    let concurrent = combine_markets(answers.iter().map(|a| token_markets(a)).collect());
    assert_eq!(fees(concurrent), sequential);
}

#[test]
fn a_refresh_goes_through_its_steps() {
    let mut step = RefreshStep::Request;
    let mut event = RefreshEvent::Responded { status: 204 };
    let mut steps: Vec<RefreshStep> = Vec::new();
    while step != RefreshStep::Done {
        steps.push(step);
        step = refresh_step(step, event).unwrap();
        event = RefreshEvent::Succeeded;
    }
    assert_eq!(
        steps,
        vec![
            RefreshStep::Request,
            RefreshStep::ReadBody,
            RefreshStep::ParseBody,
            RefreshStep::CreateDirectory,
            RefreshStep::CreateTemporary,
            RefreshStep::Serialize,
            RefreshStep::WriteTemporary,
            RefreshStep::Replace,
        ]
    );
}

#[test]
fn a_refresh_is_given_up() {
    assert_eq!(
        refresh_step(RefreshStep::Request, RefreshEvent::TimedOut),
        Err(RefreshError::TimedOut)
    );
    assert_eq!(
        refresh_step(RefreshStep::Request, RefreshEvent::Failed),
        Err(RefreshError::Step(RefreshStep::Request))
    );
    for status in vec![100u16, 199, 300, 404, 500] {
        assert_eq!(
            refresh_step(RefreshStep::Request, RefreshEvent::Responded { status }),
            Err(RefreshError::Status(status))
        );
    }
    for status in vec![200u16, 299] {
        assert_eq!(
            refresh_step(RefreshStep::Request, RefreshEvent::Responded { status }),
            Ok(RefreshStep::ReadBody)
        );
    }
    assert_eq!(
        refresh_step(RefreshStep::WriteTemporary, RefreshEvent::Failed),
        Err(RefreshError::Step(RefreshStep::WriteTemporary))
    );
}

#[test]
fn the_temporary_file_stands_beside_the_cache() {
    assert_eq!(temporary_cache_file(), "src/markets/cache/orca-markets.json.tmp");
    assert_eq!(ORCA_CACHE_FILE, "src/markets/cache/orca-markets.json");
}
