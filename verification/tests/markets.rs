use orca_pools::keys::{from_Pubkey, from_str, Pubkey};
use orca_pools::markets::{toPairString, Dex, DexLabel, Market};
use solana_program::pubkey::ParsePubkeyError;

fn market(id: &str) -> Market {
    Market {
        tokenMintA: "a".to_string(),
        tokenVaultA: "va".to_string(),
        tokenMintB: "b".to_string(),
        tokenVaultB: "vb".to_string(),
        fee: 30,
        dexLabel: DexLabel::ORCA,
        id: id.to_string(),
        account_data: None,
        liquidity: None,
    }
}

#[test]
fn an_address_is_shown_in_base_58() {
    assert_eq!(
        from_Pubkey(Pubkey { bytes: [0; 32] }),
        "11111111111111111111111111111111"
    );
    assert_eq!(
        from_Pubkey(Pubkey { bytes: [255; 32] }),
        "JEKNVnkbo3jma5nREBBJCDoXFVeKkD56V3xKrvRmWxFG"
    );
}

#[test]
fn an_address_is_read_from_base_58() {
    let text = "So11111111111111111111111111111111111111112";
    let key = from_str(text).unwrap();
    assert_eq!(from_Pubkey(key), text);
    assert_eq!(key.bytes[0], 6);
    assert_eq!(from_str("111").unwrap_err().cause, ParsePubkeyError::WrongSize);
    assert_eq!(from_str("0").unwrap_err().cause, ParsePubkeyError::Invalid);
}

#[test]
fn a_pair_is_named_lesser_token_first() {
    assert_eq!(toPairString("abc".to_string(), "abd".to_string()), "abc/abd");
    assert_eq!(toPairString("abd".to_string(), "abc".to_string()), "abc/abd");
    assert_eq!(toPairString("ab".to_string(), "abc".to_string()), "ab/abc");
    assert_eq!(toPairString("abc".to_string(), "ab".to_string()), "ab/abc");
    assert_eq!(toPairString("x".to_string(), "x".to_string()), "x/x");
    assert_eq!(toPairString("B".to_string(), "a".to_string()), "B/a");
}

#[test]
fn markets_are_filed_in_order() {
    let mut dex = Dex::new();
    assert!(dex.markets_of("p").is_none());
    dex.add_market("p".to_string(), market("1"));
    dex.add_market("q".to_string(), market("2"));
    dex.add_market("p".to_string(), market("3"));
    let ids: Vec<String> = dex.markets_of("p").unwrap().iter().map(|m| m.id.clone()).collect();
    assert_eq!(ids, vec!["1", "3"]);
    assert_eq!(dex.markets_of("q").unwrap().len(), 1);
    assert_eq!(dex.pairToMarkets.len(), 2);
}
