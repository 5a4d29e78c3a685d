//! Markets, and how they are filed by the pair of tokens that they trade.

use crate::table::NameTable;
use vstd::prelude::*;
use vstd::string::{StrSliceExecFns, StringExecFns};

verus! {

/// The exchange that runs a market.
#[allow(non_camel_case_types)]
#[derive(Clone, Copy, Debug, PartialEq, Eq, Structural)]
pub enum DexLabel {
    ORCA,
    ORCA_WHIRLPOOLS,
    RAYDIUM,
    RAYDIUM_CLMM,
    METEORA,
}

/// A pool, by the text forms of its addresses, with its fee rate in basis points.
#[allow(non_snake_case)]
#[derive(Clone, Debug)]
pub struct PoolItem {
    pub mintA: String,
    pub mintB: String,
    pub vaultA: String,
    pub vaultB: String,
    pub tradeFeeRate: u128,
}

/// A pool item with its texts as sequences of characters.
#[allow(non_snake_case)]
pub ghost struct PoolItemView {
    pub mintA: Seq<char>,
    pub mintB: Seq<char>,
    pub vaultA: Seq<char>,
    pub vaultB: Seq<char>,
    pub tradeFeeRate: nat,
}

impl View for PoolItem {
    type V = PoolItemView;

    open spec fn view(&self) -> PoolItemView {
        PoolItemView {
            mintA: self.mintA@,
            mintB: self.mintB@,
            vaultA: self.vaultA@,
            vaultB: self.vaultB@,
            tradeFeeRate: self.tradeFeeRate as nat,
        }
    }
}

/// A market where two tokens trade.
#[allow(non_snake_case)]
#[derive(Clone, Debug)]
pub struct Market {
    pub tokenMintA: String,
    pub tokenVaultA: String,
    pub tokenMintB: String,
    pub tokenVaultB: String,
    pub fee: u64,
    pub dexLabel: DexLabel,
    pub id: String,
    pub account_data: Option<Vec<u8>>,
    pub liquidity: Option<u64>,
}

/// A market with its texts as sequences of characters.
#[allow(non_snake_case)]
pub ghost struct MarketView {
    pub tokenMintA: Seq<char>,
    pub tokenVaultA: Seq<char>,
    pub tokenMintB: Seq<char>,
    pub tokenVaultB: Seq<char>,
    pub fee: nat,
    pub dexLabel: DexLabel,
    pub id: Seq<char>,
    pub account_data: Option<Seq<u8>>,
    pub liquidity: Option<u64>,
}

impl View for Market {
    type V = MarketView;

    open spec fn view(&self) -> MarketView {
        MarketView {
            tokenMintA: self.tokenMintA@,
            tokenVaultA: self.tokenVaultA@,
            tokenMintB: self.tokenMintB@,
            tokenVaultB: self.tokenVaultB@,
            fee: self.fee as nat,
            dexLabel: self.dexLabel,
            id: self.id@,
            account_data: match self.account_data {
                Some(data) => Some(data@),
                None => None,
            },
            liquidity: self.liquidity,
        }
    }
}

/// `a` comes before `b` in the order of characters, comparing from position `at` on.
pub open spec fn text_less(a: Seq<char>, b: Seq<char>, at: int) -> bool
    decreases b.len() - at,
{
    if at >= b.len() {
        false
    } else if at >= a.len() {
        true
    } else if a[at] != b[at] {
        a[at] < b[at]
    } else {
        text_less(a, b, at + 1)
    }
}

/// The name of the pair of two tokens: both texts around a slash, the lesser one first.
pub open spec fn pair_string(a: Seq<char>, b: Seq<char>) -> Seq<char> {
    if text_less(a, b, 0) {
        a + seq!['/'] + b
    } else {
        b + seq!['/'] + a
    }
}

fn comes_before(a: &str, b: &str) -> (r: bool)
    ensures
        r == text_less(a@, b@, 0),
{
    let a_len: usize = a.unicode_len();
    let b_len: usize = b.unicode_len();
    let mut at: usize = 0;
    while at < a_len && at < b_len
        invariant
            a_len == a@.len(),
            b_len == b@.len(),
            at <= a_len,
            at <= b_len,
            text_less(a@, b@, 0) == text_less(a@, b@, at as int),
        decreases a_len - at,
    {
        let x = a.get_char(at);
        let y = b.get_char(at);
        if x != y {
            return x < y;
        }
        at = at + 1;
    }
    at < b_len
}

/// Names the pair of two tokens. Both orders of the tokens give the same name.
#[allow(non_snake_case)]
pub fn toPairString(mintA: String, mintB: String) -> (name: String)
    ensures
        name@ == pair_string(mintA@, mintB@),
{
    proof {
        reveal_strlit("/");
        assert("/"@ =~= seq!['/']);
    }
    if comes_before(mintA.as_str(), mintB.as_str()) {
        let mut name = mintA;
        name.append("/");
        name.append(mintB.as_str());
        name
    } else {
        let mut name = mintB;
        name.append("/");
        name.append(mintA.as_str());
        name
    }
}

proof fn lemma_text_order(a: Seq<char>, b: Seq<char>, at: int)
    requires
        0 <= at <= a.len(),
        at <= b.len(),
        forall|i: int| 0 <= i < at ==> a[i] == b[i],
    ensures
        !(text_less(a, b, at) && text_less(b, a, at)),
        text_less(a, b, at) || text_less(b, a, at) || a == b,
    decreases b.len() - at,
{
    if at < a.len() && at < b.len() && a[at] == b[at] {
        lemma_text_order(a, b, at + 1);
    } else if at == a.len() && at == b.len() {
        assert(a =~= b);
    }
}

/// The name of a pair does not depend on which of its tokens is given first.
pub proof fn law_pair_name_ignores_order(a: Seq<char>, b: Seq<char>)
    ensures
        pair_string(a, b) == pair_string(b, a),
{
    lemma_text_order(a, b, 0);
}

/// The markets of an exchange, filed by pair.
#[allow(non_snake_case)]
pub struct Dex {
    pub pairToMarkets: NameTable<Vec<Market>>,
}

impl View for Dex {
    type V = Map<Seq<char>, Seq<MarketView>>;

    open spec fn view(&self) -> Map<Seq<char>, Seq<MarketView>> {
        self.pairToMarkets@.map_values(|list: Vec<Market>| list@.map_values(|m: Market| m@))
    }
}

/// The list under a name, empty where the name is new.
pub open spec fn filed_under(
    filed: Map<Seq<char>, Seq<MarketView>>,
    pair: Seq<char>,
) -> Seq<MarketView> {
    if filed.contains_key(pair) {
        filed[pair]
    } else {
        Seq::empty()
    }
}

/// The files after a market is added at the end of the list of its pair.
pub open spec fn with_market(
    filed: Map<Seq<char>, Seq<MarketView>>,
    pair: Seq<char>,
    market: MarketView,
) -> Map<Seq<char>, Seq<MarketView>> {
    filed.insert(pair, filed_under(filed, pair).push(market))
}

/// How many markets are filed, under all names together.
pub open spec fn market_count(filed: Map<Seq<char>, Seq<MarketView>>) -> nat
    decreases filed.dom().len(),
    when filed.dom().finite()
{
    if filed.dom().len() == 0 {
        0
    } else {
        let pair = filed.dom().choose();
        filed[pair].len() + market_count(filed.remove(pair))
    }
}

proof fn lemma_count_without(filed: Map<Seq<char>, Seq<MarketView>>, pair: Seq<char>)
    requires
        filed.dom().finite(),
        filed.contains_key(pair),
    ensures
        market_count(filed) == filed[pair].len() + market_count(filed.remove(pair)),
    decreases filed.dom().len(),
{
    let chosen = filed.dom().choose();
    if chosen != pair {
        lemma_count_without(filed.remove(chosen), pair);
        lemma_count_without(filed.remove(pair), chosen);
        assert(filed.remove(chosen).remove(pair) =~= filed.remove(pair).remove(chosen));
    }
}

/// Filing a market makes one more.
pub proof fn lemma_market_adds_one(
    filed: Map<Seq<char>, Seq<MarketView>>,
    pair: Seq<char>,
    market: MarketView,
)
    requires
        filed.dom().finite(),
    ensures
        with_market(filed, pair, market).dom().finite(),
        market_count(with_market(filed, pair, market)) == market_count(filed) + 1,
{
    let after = with_market(filed, pair, market);
    lemma_count_without(after, pair);
    if filed.contains_key(pair) {
        lemma_count_without(filed, pair);
        assert(after.remove(pair) =~= filed.remove(pair));
    } else {
        assert(after.remove(pair) =~= filed);
    }
}

impl Dex {
    /// The files are in order.
    pub open spec fn well_formed(self) -> bool {
        self.pairToMarkets.well_formed()
    }

    /// Markets are filed under finitely many names.
    pub proof fn lemma_finitely_many_pairs(self)
        requires
            self.well_formed(),
        ensures
            self@.dom().finite(),
    {
        self.pairToMarkets.lemma_finite();
        assert(self@.dom() =~= self.pairToMarkets@.dom());
    }

    /// An exchange without markets.
    pub fn new() -> (dex: Self)
        ensures
            dex.well_formed(),
            dex@ == Map::<Seq<char>, Seq<MarketView>>::empty(),
    {
        let dex = Dex { pairToMarkets: NameTable::new() };
        assert(dex@ =~= Map::<Seq<char>, Seq<MarketView>>::empty());
        dex
    }

    /// Adds a market at the end of the list of its pair.
    pub fn add_market(&mut self, pair: String, market: Market)
        requires
            old(self).well_formed(),
        ensures
            final(self).well_formed(),
            final(self)@ == with_market(old(self)@, pair@, market@),
    {
        let ghost before = self.pairToMarkets@;
        self.pairToMarkets.push_under(pair, market);
        proof {
            let after = self.pairToMarkets@;
            let list = if before.contains_key(pair@) {
                before[pair@]@
            } else {
                Seq::empty()
            };
            assert(list.push(market).map_values(|m: Market| m@) =~= list.map_values(
                |m: Market| m@,
            ).push(market@));
            assert(list.map_values(|m: Market| m@) =~= filed_under(old(self)@, pair@));
            assert(self@ =~= with_market(old(self)@, pair@, market@));
        }
    }

    /// The markets of a pair.
    pub fn markets_of(&self, pair: &str) -> (list: Option<&Vec<Market>>)
        requires
            self.well_formed(),
        ensures
            list is Some <==> self@.contains_key(pair@),
            list matches Some(l) ==> l@.map_values(|m: Market| m@) == self@[pair@],
    {
        self.pairToMarkets.get(pair)
    }
}

proof fn lemma_first_difference_decides(a: Seq<char>, b: Seq<char>, from: int, at: int)
    requires
        0 <= from <= at <= a.len(),
        at < b.len(),
        forall|i: int| 0 <= i < at ==> a[i] == b[i],
        at < a.len() ==> a[at] < b[at],
    ensures
        text_less(a, b, from),
        !text_less(b, a, from),
    decreases at - from,
{
    if from < at {
        lemma_first_difference_decides(a, b, from + 1, at);
    }
}

/// Where a text ends within another one, or has the lesser character at the first place where
/// they differ, it stands first in the name of the pair, whichever is given first.
pub proof fn law_the_lesser_text_stands_first(a: Seq<char>, b: Seq<char>, at: int)
    requires
        0 <= at <= a.len(),
        at < b.len(),
        forall|i: int| 0 <= i < at ==> a[i] == b[i],
        at < a.len() ==> a[at] < b[at],
    ensures
        pair_string(a, b) == a + seq!['/'] + b,
        pair_string(b, a) == a + seq!['/'] + b,
{
    lemma_first_difference_decides(a, b, 0, at);
}

/// The name of a pair is made of both texts in full, around a slash.
pub proof fn law_a_pair_name_holds_both_texts(a: Seq<char>, b: Seq<char>)
    ensures
        pair_string(a, b) == a + seq!['/'] + b || pair_string(a, b) == b + seq!['/'] + a,
{
}

/// Filing a market puts it at the end of the list of its pair, which starts out empty, and
/// leaves every other list as it is.
pub proof fn law_a_market_goes_to_the_end_of_its_list(
    filed: Map<Seq<char>, Seq<MarketView>>,
    pair: Seq<char>,
    market: MarketView,
    other: Seq<char>,
)
    requires
        other != pair,
    ensures
        ({
            let after = with_market(filed, pair, market);
            &&& after.contains_key(pair)
            &&& filed.contains_key(pair) ==> after[pair] == filed[pair].push(market)
            &&& !filed.contains_key(pair) ==> after[pair] == seq![market]
            &&& after.contains_key(other) <==> filed.contains_key(other)
            &&& filed.contains_key(other) ==> after[other] == filed[other]
        }),
{
    assert(Seq::<MarketView>::empty().push(market) =~= seq![market]);
}

/// The view of a pool item shows every field.
pub proof fn law_view_shows_the_item(item: PoolItem)
    ensures
        item@.mintA == item.mintA@,
        item@.mintB == item.mintB@,
        item@.vaultA == item.vaultA@,
        item@.vaultB == item.vaultB@,
        item@.tradeFeeRate == item.tradeFeeRate,
{
}

/// The view of a market shows every field.
pub proof fn law_view_shows_the_market(market: Market)
    ensures
        market@.tokenMintA == market.tokenMintA@,
        market@.tokenVaultA == market.tokenVaultA@,
        market@.tokenMintB == market.tokenMintB@,
        market@.tokenVaultB == market.tokenVaultB@,
        market@.fee == market.fee,
        market@.dexLabel == market.dexLabel,
        market@.id == market.id@,
        market@.liquidity == market.liquidity,
        market@.account_data is Some <==> market.account_data is Some,
        market.account_data matches Some(data) ==> market@.account_data == Some(data@),
{
}

/// The view of an exchange shows the list of every pair, market by market.
pub proof fn law_view_shows_the_lists(dex: Dex, pair: Seq<char>, i: int)
    ensures
        dex@.contains_key(pair) <==> dex.pairToMarkets@.contains_key(pair),
        dex@.contains_key(pair) ==> dex@[pair].len() == dex.pairToMarkets@[pair]@.len(),
        dex@.contains_key(pair) && 0 <= i < dex@[pair].len() ==> dex@[pair][i]
            == dex.pairToMarkets@[pair]@[i]@,
{
}

} // verus!
