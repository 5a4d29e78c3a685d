//! The Orca exchange: its pool list, the accounts behind it, and the markets they make.

use crate::binary64::{
    at_most, law_a_ratio_is_accurate, law_a_ratio_is_rounded_twice,
    law_an_exact_division_gives_an_exact_product, law_conversion_cuts_off_the_fraction,
    law_division_by_zero, law_ratio_stays_within_the_whole, lemma_ratio_fits, ratio_times, saturated, units, Binary64,
};
use crate::keys::{from_Pubkey, from_str, pubkey_parsed, pubkey_text, AddressError, Pubkey};
use crate::layout::{SwapLayout, TokenSwapLayout};
use crate::markets::{
    filed_under, lemma_market_adds_one, market_count, pair_string, toPairString, with_market, Dex, DexLabel, Market, MarketView,
    PoolItem, PoolItemView,
};
use crate::rounding::{converted, distance, is_nearest};
use solana_program::pubkey::ParsePubkeyError;
use vstd::arithmetic::power2::{lemma_pow2_pos, pow2};
use vstd::prelude::*;

verus! {

/// How many accounts one request may name.
pub const RPC_BATCH_SIZE: usize = 100;

/// What a fee of one, the whole amount, is in basis points.
pub const BASIS_POINTS: u16 = 10000;

/// An answer of the exchange that holds a single pool.
#[derive(Default, Debug, Clone, PartialEq)]
pub struct Root {
    pub pool: Pool,
}

/// An entry of the exchange's list of pools.
#[derive(Default, Debug, Clone, PartialEq)]
pub struct Pool {
    pub pool_id: String,
    pub pool_account: String,
    pub token_aamount: String,
    pub token_bamount: String,
    pub pool_token_supply: String,
    pub apy: Apy,
    pub volume: Volume,
}

/// The yield of a pool over three spans.
#[derive(Default, Debug, Clone, PartialEq)]
pub struct Apy {
    pub day: String,
    pub week: String,
    pub month: String,
}

/// The turnover of a pool over three spans.
#[derive(Default, Debug, Clone, PartialEq)]
pub struct Volume {
    pub day: String,
    pub week: String,
    pub month: String,
}

/// The trade fee of a pool in basis points, in double precision.
pub open spec fn fee_rate(pool: SwapLayout) -> Binary64 {
    ratio_times(pool.trade_fee_numerator, pool.trade_fee_denominator, BASIS_POINTS as nat)
}

/// Why a pool makes no market.
#[derive(Clone, Copy, Debug, PartialEq, Eq, Structural)]
pub enum SkipReason {
    /// It is not initialised.
    Uninitialized,
    /// Its fee is no ratio.
    ZeroFeeDenominator,
}

/// A pool makes a market when it is initialised and its fee is a ratio.
pub open spec fn usable(pool: SwapLayout) -> bool {
    pool.is_initialized && pool.trade_fee_denominator != 0
}

/// Why a pool makes no market, if it makes none. That it is not initialised comes first.
pub fn skip_reason(pool: &TokenSwapLayout) -> (reason: Option<SkipReason>)
    ensures
        reason is None <==> usable(pool@),
        reason == Some(SkipReason::Uninitialized) <==> !pool.is_initialized,
        reason == Some(SkipReason::ZeroFeeDenominator) <==> pool.is_initialized
            && pool.trade_fee_denominator == 0,
{
    if !pool.is_initialized {
        Some(SkipReason::Uninitialized)
    } else if pool.trade_fee_denominator == 0 {
        Some(SkipReason::ZeroFeeDenominator)
    } else {
        None
    }
}

/// The item that is listed for a pool.
pub open spec fn pool_item_of(pool: SwapLayout) -> PoolItemView {
    PoolItemView {
        mintA: pubkey_text(pool.mint_a),
        mintB: pubkey_text(pool.mint_b),
        vaultA: pubkey_text(pool.token_account_a),
        vaultB: pubkey_text(pool.token_account_b),
        tradeFeeRate: saturated(fee_rate(pool), u128::MAX as nat),
    }
}

/// The market that a pool makes.
pub open spec fn market_of(pool: SwapLayout) -> MarketView {
    MarketView {
        tokenMintA: pubkey_text(pool.mint_a),
        tokenVaultA: pubkey_text(pool.token_account_a),
        tokenMintB: pubkey_text(pool.mint_b),
        tokenVaultB: pubkey_text(pool.token_account_b),
        fee: saturated(fee_rate(pool), u64::MAX as nat),
        dexLabel: DexLabel::ORCA,
        id: pubkey_text(pool.token_pool),
        account_data: None,
        liquidity: None,
    }
}

/// The name under which a pool's market is filed.
pub open spec fn pair_of(pool: SwapLayout) -> Seq<char> {
    pair_string(pubkey_text(pool.mint_a), pubkey_text(pool.mint_b))
}

/// The items that are listed for the usable ones among some pools, in their order.
pub open spec fn items_of(pools: Seq<SwapLayout>) -> Seq<PoolItemView> {
    pools.filter(|pool: SwapLayout| usable(pool)).map_values(
        |pool: SwapLayout| pool_item_of(pool),
    )
}

/// The files after the markets of the usable ones among some pools were added in their order.
pub open spec fn filed(
    before: Map<Seq<char>, Seq<MarketView>>,
    pools: Seq<SwapLayout>,
) -> Map<Seq<char>, Seq<MarketView>>
    decreases pools.len(),
{
    if pools.len() == 0 {
        before
    } else {
        let rest = filed(before, pools.drop_last());
        let pool = pools.last();
        if usable(pool) {
            with_market(rest, pair_of(pool), market_of(pool))
        } else {
            rest
        }
    }
}

/// Pools as their accounts store them, with sequences for arrays.
pub open spec fn layouts(pools: Seq<TokenSwapLayout>) -> Seq<SwapLayout> {
    pools.map_values(|pool: TokenSwapLayout| pool@)
}

/// Pool items with sequences for texts.
pub open spec fn items(list: Seq<PoolItem>) -> Seq<PoolItemView> {
    list.map_values(|item: PoolItem| item@)
}

/// The exchange with the pools that were read from its accounts.
pub struct OrcaDex {
    pub dex: Dex,
    pub pools: Vec<PoolItem>,
}

impl OrcaDex {
    /// Builds the exchange from the pools that its accounts hold.
    pub fn new(dex: Dex, results_pools: &[TokenSwapLayout]) -> (orca: Self)
        requires
            dex.well_formed(),
        ensures
            orca.dex.well_formed(),
            orca.dex@ == filed(dex@, layouts(results_pools@)),
            items(orca.pools@) == items_of(layouts(results_pools@)),
    {
        let mut dex = dex;
        let mut pools_vec: Vec<PoolItem> = Vec::new();
        Self::process_pools(results_pools, &mut pools_vec, &mut dex);
        assert(items(pools_vec@) =~= items_of(layouts(results_pools@)));
        OrcaDex { dex, pools: pools_vec }
    }

    /// Lists each usable pool and files its market; passes over the others.
    pub fn process_pools(
        pools: &[TokenSwapLayout],
        pools_vec: &mut Vec<PoolItem>,
        dex: &mut Dex,
    )
        requires
            old(dex).well_formed(),
        ensures
            final(dex).well_formed(),
            final(dex)@ == filed(old(dex)@, layouts(pools@)),
            items(final(pools_vec)@) == items(old(pools_vec)@) + items_of(layouts(pools@)),
            market_count(final(dex)@) - market_count(old(dex)@) == final(pools_vec)@.len() - old(
                pools_vec,
            )@.len(),
    {
        let ghost all = layouts(pools@);
        let len: usize = pools.len();
        let mut i: usize = 0;
        proof {
            reveal(Seq::filter);
            assert(all.take(0) =~= Seq::empty());
            assert(items(pools_vec@) =~= items(old(pools_vec)@) + items_of(all.take(0)));
        }
        while i < len
            invariant
                i <= len,
                len == pools@.len(),
                all == layouts(pools@),
                dex.well_formed(),
                dex@ == filed(old(dex)@, all.take(i as int)),
                items(pools_vec@) == items(old(pools_vec)@) + items_of(all.take(i as int)),
            decreases len - i,
        {
            let pool = &pools[i];
            proof {
                let next = all.take(i + 1);
                assert(next.drop_last() =~= all.take(i as int));
                assert(next.last() == pool@);
                reveal(Seq::filter);
            }
            if skip_reason(pool).is_none() {
                let fee = Self::calculate_fee_rate(pool);
                let pool_item = PoolItem {
                    mintA: from_Pubkey(pool.mint_a),
                    mintB: from_Pubkey(pool.mint_b),
                    vaultA: from_Pubkey(pool.token_account_a),
                    vaultB: from_Pubkey(pool.token_account_b),
                    tradeFeeRate: fee.to_u128(),
                };
                let ghost listed = pools_vec@;
                pools_vec.push(pool_item);
                let market = Market {
                    tokenMintA: from_Pubkey(pool.mint_a),
                    tokenVaultA: from_Pubkey(pool.token_account_a),
                    tokenMintB: from_Pubkey(pool.mint_b),
                    tokenVaultB: from_Pubkey(pool.token_account_b),
                    fee: fee.to_u64(),
                    dexLabel: DexLabel::ORCA,
                    id: from_Pubkey(pool.token_pool),
                    account_data: None,
                    liquidity: None,
                };
                assert(market@ == market_of(pool@));
                let pair_string = toPairString(
                    from_Pubkey(pool.mint_a),
                    from_Pubkey(pool.mint_b),
                );
                dex.add_market(pair_string, market);
                proof {
                    assert(items(pools_vec@) =~= items(listed).push(pool_item_of(pool@)));
                    assert(items_of(all.take(i + 1)) =~= items_of(all.take(i as int)).push(
                        pool_item_of(pool@),
                    ));
                }
            }
            i = i + 1;
        }
        assert(all.take(len as int) =~= all);
        proof {
            old(dex).lemma_finitely_many_pairs();
            law_each_usable_pool_adds_one(old(dex)@, all);
            assert(items(pools_vec@).len() == pools_vec@.len());
            assert(items(old(pools_vec)@).len() == old(pools_vec)@.len());
        }
    }

    /// The trade fee of a pool in basis points.
    pub fn calculate_fee_rate(pool: &TokenSwapLayout) -> (fee: Binary64)
        ensures
            fee == fee_rate(pool@),
            fee.well_formed(),
    {
        Binary64::from_ratio(pool.trade_fee_numerator, pool.trade_fee_denominator, BASIS_POINTS)
    }
}

/// Reads the addresses of the accounts behind some pools. Where some cannot be read, the error
/// is that of the first.
pub fn pool_accounts(pools: &[Pool]) -> (r: Result<Vec<Pubkey>, AddressError>)
    ensures
        match r {
            Ok(keys) => {
                &&& keys@.len() == pools@.len()
                &&& forall|i: int|
                    0 <= i < pools@.len() ==> pubkey_parsed(
                        (#[trigger] pools@[i]).pool_account@,
                    ) == Ok::<Seq<u8>, ParsePubkeyError>(keys@[i]@)
            },
            Err(error) => exists|i: int|
                {
                    &&& 0 <= i < pools@.len()
                    &&& pubkey_parsed((#[trigger] pools@[i]).pool_account@) == Err::<
                        Seq<u8>,
                        ParsePubkeyError,
                    >(error.cause)
                    &&& forall|j: int|
                        0 <= j < i ==> pubkey_parsed((#[trigger] pools@[j]).pool_account@) is Ok
                },
        },
{
    let len: usize = pools.len();
    let mut keys: Vec<Pubkey> = Vec::new();
    let mut i: usize = 0;
    while i < len
        invariant
            i <= len,
            len == pools@.len(),
            keys@.len() == i,
            forall|j: int|
                0 <= j < i ==> pubkey_parsed((#[trigger] pools@[j]).pool_account@) == Ok::<
                    Seq<u8>,
                    ParsePubkeyError,
                >(keys@[j]@),
        decreases len - i,
    {
        match from_str(pools[i].pool_account.as_str()) {
            Ok(key) => keys.push(key),
            Err(error) => {
                assert(pubkey_parsed(pools@[i as int].pool_account@) is Err);
                return Err(error);
            },
        }
        i = i + 1;
    }
    Ok(keys)
}

/// The list of every pair holds what it held before, and after that the markets of the usable
/// pools of that pair, each once and in their order.
pub proof fn law_lists_grow_by_their_pools(
    before: Map<Seq<char>, Seq<MarketView>>,
    pools: Seq<SwapLayout>,
    pair: Seq<char>,
)
    ensures
        filed_under(filed(before, pools), pair) == filed_under(before, pair) + pools.filter(
            |pool: SwapLayout| usable(pool) && pair_of(pool) == pair,
        ).map_values(|pool: SwapLayout| market_of(pool)),
    decreases pools.len(),
{
    let belongs = |pool: SwapLayout| usable(pool) && pair_of(pool) == pair;
    let made = |pool: SwapLayout| market_of(pool);
    reveal(Seq::filter);
    if pools.len() == 0 {
        assert(filed_under(filed(before, pools), pair) =~= filed_under(before, pair)
            + pools.filter(belongs).map_values(made));
    } else {
        let rest = pools.drop_last();
        law_lists_grow_by_their_pools(before, rest, pair);
        if belongs(pools.last()) {
            assert(pools.filter(belongs).map_values(made) =~= rest.filter(belongs).map_values(
                made,
            ).push(market_of(pools.last())));
            assert(filed_under(filed(before, pools), pair) =~= filed_under(
                filed(before, rest),
                pair,
            ).push(market_of(pools.last())));
            assert(filed_under(filed(before, pools), pair) =~= filed_under(before, pair)
                + pools.filter(belongs).map_values(made));
        }
    }
}

/// Pools may be processed in several lots: the outcome is that of processing them at once.
pub proof fn law_pools_may_come_in_lots(
    before: Map<Seq<char>, Seq<MarketView>>,
    first: Seq<SwapLayout>,
    second: Seq<SwapLayout>,
)
    ensures
        filed(before, first + second) == filed(filed(before, first), second),
        items_of(first + second) == items_of(first) + items_of(second),
    decreases second.len(),
{
    let all = first + second;
    reveal(Seq::filter);
    if second.len() == 0 {
        assert(all =~= first);
        assert(items_of(all) =~= items_of(first) + items_of(second));
    } else {
        let rest = second.drop_last();
        law_pools_may_come_in_lots(before, first, rest);
        assert(all.drop_last() =~= first + rest);
        assert(all.last() == second.last());
        if usable(second.last()) {
            assert(items_of(all) =~= items_of(first + rest).push(pool_item_of(second.last())));
            assert(items_of(second) =~= items_of(rest).push(pool_item_of(second.last())));
        }
        assert(items_of(all) =~= items_of(first) + items_of(second));
    }
}

/// Each usable pool adds exactly one item and exactly one market, and no other pool adds any:
/// the list and the files grow by the number of usable pools.
pub proof fn law_each_usable_pool_adds_one(
    before: Map<Seq<char>, Seq<MarketView>>,
    pools: Seq<SwapLayout>,
)
    requires
        before.dom().finite(),
    ensures
        filed(before, pools).dom().finite(),
        items_of(pools).len() == pools.filter(|pool: SwapLayout| usable(pool)).len(),
        market_count(filed(before, pools)) == market_count(before) + items_of(pools).len(),
    decreases pools.len(),
{
    reveal(Seq::filter);
    if pools.len() > 0 {
        let rest = pools.drop_last();
        let pool = pools.last();
        law_each_usable_pool_adds_one(before, rest);
        if usable(pool) {
            lemma_market_adds_one(filed(before, rest), pair_of(pool), market_of(pool));
        }
    }
}

/// The item and the market of a pool name the same tokens and vaults, and charge the same fee
/// as far as the market's can hold it.
pub proof fn law_item_and_market_agree(pool: SwapLayout)
    ensures
        pool_item_of(pool).mintA == market_of(pool).tokenMintA,
        pool_item_of(pool).mintB == market_of(pool).tokenMintB,
        pool_item_of(pool).vaultA == market_of(pool).tokenVaultA,
        pool_item_of(pool).vaultB == market_of(pool).tokenVaultB,
        market_of(pool).fee == (if pool_item_of(pool).tradeFeeRate <= u64::MAX {
            pool_item_of(pool).tradeFeeRate
        } else {
            u64::MAX as nat
        }),
{
}

/// A fee of at most the whole amount is at most the whole in basis points, as the double that
/// is carried and as the integers that the item and the market hold.
pub proof fn law_fee_is_at_most_the_whole(pool: SwapLayout)
    requires
        pool.trade_fee_numerator <= pool.trade_fee_denominator,
        0 < pool.trade_fee_denominator <= u64::MAX,
    ensures
        at_most(fee_rate(pool), BASIS_POINTS as nat),
        pool_item_of(pool).tradeFeeRate <= BASIS_POINTS,
        market_of(pool).fee <= BASIS_POINTS,
{
    law_ratio_stays_within_the_whole(
        pool.trade_fee_numerator,
        pool.trade_fee_denominator,
        BASIS_POINTS as nat,
    );
}

/// A pool is listed under the addresses that it has: the item and the market give each token
/// and each vault its own side, and the market is known by the pool's token.
pub proof fn law_a_pool_is_listed_as_it_is(pool: SwapLayout)
    ensures
        pool_item_of(pool).mintA == pubkey_text(pool.mint_a),
        pool_item_of(pool).mintB == pubkey_text(pool.mint_b),
        pool_item_of(pool).vaultA == pubkey_text(pool.token_account_a),
        pool_item_of(pool).vaultB == pubkey_text(pool.token_account_b),
        market_of(pool).tokenMintA == pubkey_text(pool.mint_a),
        market_of(pool).tokenMintB == pubkey_text(pool.mint_b),
        market_of(pool).tokenVaultA == pubkey_text(pool.token_account_a),
        market_of(pool).tokenVaultB == pubkey_text(pool.token_account_b),
        market_of(pool).id == pubkey_text(pool.token_pool),
        market_of(pool).dexLabel == DexLabel::ORCA,
        market_of(pool).account_data is None,
        market_of(pool).liquidity is None,
{
}

/// The pool is initialised and its trade fee is a ratio.
pub open spec fn is_open(pool: TokenSwapLayout) -> bool {
    pool.is_initialized && pool.trade_fee_denominator != 0
}

/// Every pool that is initialised and whose trade fee is a ratio is listed, each once and in
/// its order, whatever else is in it; and no other pool is.
pub proof fn law_every_open_pool_is_listed(pools: Seq<TokenSwapLayout>)
    ensures
        items_of(layouts(pools)) == pools.filter(
            |pool: TokenSwapLayout| is_open(pool),
        ).map_values(|pool: TokenSwapLayout| pool_item_of(pool@)),
    decreases pools.len(),
{
    reveal(Seq::filter);
    let item = |pool: TokenSwapLayout| pool_item_of(pool@);
    let listed = pools.filter(|pool: TokenSwapLayout| is_open(pool)).map_values(item);
    let all = layouts(pools);
    if pools.len() == 0 {
        assert(items_of(all) =~= listed);
    } else {
        let rest = pools.drop_last();
        let pool = pools.last();
        law_every_open_pool_is_listed(rest);
        assert(all.drop_last() =~= layouts(rest));
        assert(all.last() == pool@);
        let before = rest.filter(|pool: TokenSwapLayout| is_open(pool));
        if is_open(pool) {
            assert(items_of(all) =~= items_of(layouts(rest)).push(pool_item_of(pool@)));
            assert(before.push(pool).map_values(item) =~= before.map_values(item).push(
                pool_item_of(pool@),
            ));
        }
        assert(items_of(all) =~= listed);
    }
}

/// The pool is open and trades the tokens of the pair with this name.
pub open spec fn trades(pool: TokenSwapLayout, pair: Seq<char>) -> bool {
    is_open(pool) && pair_string(pubkey_text(pool.mint_a.bytes@), pubkey_text(pool.mint_b.bytes@))
        == pair
}

/// The market of every pool that is initialised and whose trade fee is a ratio is filed under
/// the pair of its tokens, each once and in its order after what stood there. A pair is known
/// when it was before, or when such a pool trades it.
pub proof fn law_every_open_pool_is_filed(
    before: Map<Seq<char>, Seq<MarketView>>,
    pools: Seq<TokenSwapLayout>,
    pair: Seq<char>,
)
    ensures
        filed(before, layouts(pools)).contains_key(pair) <==> before.contains_key(pair) || (
        exists|i: int| 0 <= i < pools.len() && trades(#[trigger] pools[i], pair)),
        filed_under(filed(before, layouts(pools)), pair) == filed_under(before, pair)
            + pools.filter(|pool: TokenSwapLayout| trades(pool, pair)).map_values(
            |pool: TokenSwapLayout| market_of(pool@),
        ),
        before.contains_key(pair) ==> filed_under(before, pair) == before[pair],
        !before.contains_key(pair) ==> filed_under(before, pair).len() == 0,
    decreases pools.len(),
{
    reveal(Seq::filter);
    let made = |pool: TokenSwapLayout| market_of(pool@);
    let added = pools.filter(|pool: TokenSwapLayout| trades(pool, pair)).map_values(made);
    let all = layouts(pools);
    if pools.len() == 0 {
        assert(filed_under(filed(before, all), pair) =~= filed_under(before, pair) + added);
    } else {
        let rest = pools.drop_last();
        let pool = pools.last();
        law_every_open_pool_is_filed(before, rest, pair);
        assert(all.drop_last() =~= layouts(rest));
        assert(all.last() == pool@);
        assert(pools[pools.len() - 1] == pool);
        assert(forall|i: int| 0 <= i < rest.len() ==> rest[i] == #[trigger] pools[i]);
        if filed(before, layouts(rest)).contains_key(pair) && !before.contains_key(pair) {
            let i = choose|i: int| 0 <= i < rest.len() && trades(#[trigger] rest[i], pair);
            assert(trades(pools[i], pair));
        }
        if exists|i: int| 0 <= i < pools.len() && trades(#[trigger] pools[i], pair) {
            let i = choose|i: int| 0 <= i < pools.len() && trades(#[trigger] pools[i], pair);
            if i < rest.len() {
                assert(trades(rest[i], pair));
            }
        }
        let earlier = rest.filter(|pool: TokenSwapLayout| trades(pool, pair));
        if trades(pool, pair) {
            assert(earlier.push(pool).map_values(made) =~= earlier.map_values(made).push(
                market_of(pool@),
            ));
        }
        assert(filed_under(filed(before, all), pair) =~= filed_under(before, pair) + added);
    }
}

/// The fee rate depends on the trade fee alone: pools with the same trade fee have the same
/// rate, and are listed with the same fee, whatever their other fees are.
pub proof fn law_rate_depends_on_the_trade_fee_alone(a: SwapLayout, b: SwapLayout)
    requires
        a.trade_fee_numerator == b.trade_fee_numerator,
        a.trade_fee_denominator == b.trade_fee_denominator,
    ensures
        fee_rate(a) == fee_rate(b),
        pool_item_of(a).tradeFeeRate == pool_item_of(b).tradeFeeRate,
        market_of(a).fee == market_of(b).fee,
{
}

/// A list is viewed item by item, and a row of pools pool by pool.
pub proof fn law_views_go_one_by_one(list: Seq<PoolItem>, pools: Seq<TokenSwapLayout>, i: int)
    ensures
        items(list).len() == list.len(),
        0 <= i < list.len() ==> items(list)[i] == list[i]@,
        layouts(pools).len() == pools.len(),
        0 <= i < pools.len() ==> layouts(pools)[i] == pools[i]@,
{
}

/// The fee rate is the trade fee times ten thousand, off by no more than one part in two to the 50th,
/// whatever the other fees are.
pub proof fn law_rate_is_the_trade_fee(pool: SwapLayout)
    requires
        pool.trade_fee_numerator <= u64::MAX,
        0 < pool.trade_fee_denominator <= u64::MAX,
    ensures
        fee_rate(pool) is Finite,
        distance(
            (units(fee_rate(pool)) * pool.trade_fee_denominator) as int,
            (10000 * pool.trade_fee_numerator * pow2(117)) as int,
        ) * 0x4_0000_0000_0000 <= 10000 * pool.trade_fee_numerator * pow2(117),
{
    law_a_ratio_is_accurate(pool.trade_fee_numerator, pool.trade_fee_denominator, 10000);
}

/// The fee rate is rounded twice, and in no other way: it is the double nearest to ten thousand times the
/// double nearest to the trade fee's ratio, which is the result here.
pub proof fn law_rate_is_rounded_twice(pool: SwapLayout) -> (q: (nat, int))
    requires
        0 < pool.trade_fee_numerator <= u64::MAX,
        0 < pool.trade_fee_denominator <= u64::MAX,
    ensures
        is_nearest(
            q.0,
            q.1,
            converted(pool.trade_fee_numerator),
            converted(pool.trade_fee_denominator),
        ),
        fee_rate(pool) matches Binary64::Finite { mantissa, exponent } && is_nearest(
            mantissa as nat,
            exponent - q.1,
            q.0 * 10000,
            1,
        ),
{
    law_a_ratio_is_rounded_twice(pool.trade_fee_numerator, pool.trade_fee_denominator, 10000)
}

/// Where a double holds the trade fee's ratio, as `c` parts of two to the `j`, the fee rate
/// is exactly ten thousand times the trade fee.
pub proof fn law_rate_is_exact(pool: SwapLayout, c: nat, j: nat)
    requires
        pool.trade_fee_numerator <= 0x20_0000_0000_0000,
        0 < pool.trade_fee_denominator <= 0x20_0000_0000_0000,
        pool.trade_fee_numerator * pow2(j) == c * pool.trade_fee_denominator,
        c * 10000 <= 0x20_0000_0000_0000,
        j <= 117,
    ensures
        units(fee_rate(pool)) * pool.trade_fee_denominator == 10000 * pool.trade_fee_numerator * pow2(
            117,
        ),
{
    law_an_exact_division_gives_an_exact_product(
        pool.trade_fee_numerator,
        pool.trade_fee_denominator,
        10000,
        c,
        j,
    );
}

/// The fee of an item is the integer part of the fee rate. For a fee of at most the whole it is
/// the trade fee in basis points, cut off: less than two basis points below and less than one
/// above, which rounding may add.
pub proof fn law_listed_fee_is_the_trade_fee(pool: SwapLayout)
    requires
        pool.trade_fee_numerator <= u64::MAX,
        0 < pool.trade_fee_denominator <= u64::MAX,
    ensures
        ({
            let listed = pool_item_of(pool).tradeFeeRate;
            &&& listed * pow2(117) <= units(fee_rate(pool)) < (listed + 1) * pow2(117)
            &&& pool.trade_fee_numerator <= pool.trade_fee_denominator ==> {
                &&& listed * pool.trade_fee_denominator < 10000 * pool.trade_fee_numerator
                    + pool.trade_fee_denominator
                &&& 10000 * pool.trade_fee_numerator < (listed + 2) * pool.trade_fee_denominator
            }
        }),
{
    let n = pool.trade_fee_numerator;
    let d = pool.trade_fee_denominator;
    let listed = pool_item_of(pool).tradeFeeRate;
    let u = units(fee_rate(pool));
    let one = pow2(117);
    law_rate_is_the_trade_fee(pool);
    lemma_ratio_fits(n, d, 10000);
    law_conversion_cuts_off_the_fraction(fee_rate(pool), u128::MAX as nat);
    lemma_pow2_pos(117);
    if n <= d {
        let t = 10000 * n * one;
        let ud = (u * d) as int;
        let dw = d * one;
        assert(t <= 10000 * dw) by (nonlinear_arith)
            requires
                t == 10000 * n * one,
                dw == d * one,
                n <= d,
        ;
        assert(dw > 0) by (nonlinear_arith)
            requires
                dw == d * one,
                d > 0,
                one > 0,
        ;
        assert(ud < t + dw && t < ud + dw);
        assert(listed * d < 10000 * n + d) by (nonlinear_arith)
            requires
                listed * one <= u,
                ud == u * d,
                ud < t + dw,
                t == 10000 * n * one,
                dw == d * one,
                d > 0,
                one > 0,
        ;
        assert(10000 * n < (listed + 2) * d) by (nonlinear_arith)
            requires
                u < (listed + 1) * one,
                ud == u * d,
                t < ud + dw,
                t == 10000 * n * one,
                dw == d * one,
                d > 0,
                one > 0,
        ;
    }
}

/// A pool without a fee denominator has no fee rate, or an infinite one where it has a fee
/// numerator.
pub proof fn law_rate_without_denominator(pool: SwapLayout)
    requires
        pool.trade_fee_denominator == 0,
    ensures
        pool.trade_fee_numerator == 0 ==> fee_rate(pool) == Binary64::NotANumber,
        pool.trade_fee_numerator > 0 ==> fee_rate(pool) == Binary64::Infinity,
{
    law_division_by_zero(pool.trade_fee_numerator, 10000, 0);
}

} // verus!
