//! What is reported of a pool after an update, and how often.

use crate::binary64::Binary64;
use crate::keys::{from_Pubkey, pubkey_text, Pubkey};
use crate::layout::{SwapLayout, TokenSwapLayout};
use crate::stream::{calculate_fee_percent, fee_percent};
use crate::table::NameTable;
use vstd::prelude::*;

verus! {

/// The shortest time between two limited reports on one account, in seconds.
pub const LOG_RATE_LIMIT_SECONDS: u64 = 10;

/// The report on a pool after an update.
#[derive(Debug)]
pub struct PoolMetrics {
    pub timestamp: u64,
    pub account: String,
    pub slot: u64,
    pub mint_a: String,
    pub mint_b: String,
    pub token_vault_a: String,
    pub token_vault_b: String,
    pub fee_percent: Binary64,
    pub fee_num: u64,
    pub fee_denom: u64,
    pub owner_fee_num: u64,
    pub owner_fee_denom: u64,
    pub host_fee_num: u64,
    pub host_fee_denom: u64,
    pub initialized: bool,
    pub version: u8,
    pub curve_type: u8,
}

impl PoolMetrics {
    /// The report says this of this pool.
    pub open spec fn reports(
        self,
        pool: SwapLayout,
        account: Seq<u8>,
        slot: u64,
        timestamp: u64,
    ) -> bool {
        &&& self.timestamp == timestamp
        &&& self.account@ == pubkey_text(account)
        &&& self.slot == slot
        &&& self.mint_a@ == pubkey_text(pool.mint_a)
        &&& self.mint_b@ == pubkey_text(pool.mint_b)
        &&& self.token_vault_a@ == pubkey_text(pool.token_account_a)
        &&& self.token_vault_b@ == pubkey_text(pool.token_account_b)
        &&& self.fee_percent == fee_percent(pool)
        &&& self.fee_num == pool.trade_fee_numerator
        &&& self.fee_denom == pool.trade_fee_denominator
        &&& self.owner_fee_num == pool.owner_trade_fee_numerator
        &&& self.owner_fee_denom == pool.owner_trade_fee_denominator
        &&& self.host_fee_num == pool.host_fee_numerator
        &&& self.host_fee_denom == pool.host_fee_denominator
        &&& self.initialized == pool.is_initialized
        &&& self.version == pool.version
        &&& self.curve_type == pool.curve_type
    }
}

/// What is added to a report at the finest level.
#[derive(Debug)]
pub struct PoolDetail {
    pub account: String,
    pub pool_token: String,
    pub fee_account: String,
    pub bump_seed: u8,
    pub owner_withdraw_fee_num: u64,
    pub owner_withdraw_fee_denom: u64,
    /// The first eight bytes of the curve's parameters.
    pub curve_params: Vec<u8>,
}

impl PoolDetail {
    /// The detail says this of this pool.
    pub open spec fn reports(self, pool: SwapLayout, account: Seq<u8>) -> bool {
        &&& self.account@ == pubkey_text(account)
        &&& self.pool_token@ == pubkey_text(pool.token_pool)
        &&& self.fee_account@ == pubkey_text(pool.fee_account)
        &&& self.bump_seed == pool.bump_seed
        &&& self.owner_withdraw_fee_num == pool.owner_withdraw_fee_numerator
        &&& self.owner_withdraw_fee_denom == pool.owner_withdraw_fee_denominator
        &&& self.curve_params@ == pool.curve_parameters.take(8)
    }
}

/// The report on a pool that is meant for machines.
#[derive(Debug)]
pub struct PoolMetricsRecord {
    pub timestamp: u64,
    pub account: String,
    pub slot: u64,
    pub mint_a: String,
    pub mint_b: String,
    pub token_vault_a: String,
    pub token_vault_b: String,
    pub pool_token: String,
    pub fee_account: String,
    pub trade_fee_rate_percent: Binary64,
    pub trade_fee_numerator: u64,
    pub trade_fee_denominator: u64,
    pub owner_trade_fee_numerator: u64,
    pub owner_trade_fee_denominator: u64,
    pub owner_withdraw_fee_numerator: u64,
    pub owner_withdraw_fee_denominator: u64,
    pub host_fee_numerator: u64,
    pub host_fee_denominator: u64,
    pub version: u8,
    pub is_initialized: bool,
    pub bump_seed: u8,
    pub curve_type: u8,
}

impl PoolMetricsRecord {
    /// The record says this of this pool.
    pub open spec fn reports(
        self,
        pool: SwapLayout,
        account: Seq<u8>,
        slot: u64,
        timestamp: u64,
    ) -> bool {
        &&& self.timestamp == timestamp
        &&& self.account@ == pubkey_text(account)
        &&& self.slot == slot
        &&& self.mint_a@ == pubkey_text(pool.mint_a)
        &&& self.mint_b@ == pubkey_text(pool.mint_b)
        &&& self.token_vault_a@ == pubkey_text(pool.token_account_a)
        &&& self.token_vault_b@ == pubkey_text(pool.token_account_b)
        &&& self.pool_token@ == pubkey_text(pool.token_pool)
        &&& self.fee_account@ == pubkey_text(pool.fee_account)
        &&& self.trade_fee_rate_percent == fee_percent(pool)
        &&& self.trade_fee_numerator == pool.trade_fee_numerator
        &&& self.trade_fee_denominator == pool.trade_fee_denominator
        &&& self.owner_trade_fee_numerator == pool.owner_trade_fee_numerator
        &&& self.owner_trade_fee_denominator == pool.owner_trade_fee_denominator
        &&& self.owner_withdraw_fee_numerator == pool.owner_withdraw_fee_numerator
        &&& self.owner_withdraw_fee_denominator == pool.owner_withdraw_fee_denominator
        &&& self.host_fee_numerator == pool.host_fee_numerator
        &&& self.host_fee_denominator == pool.host_fee_denominator
        &&& self.version == pool.version
        &&& self.is_initialized == pool.is_initialized
        &&& self.bump_seed == pool.bump_seed
        &&& self.curve_type == pool.curve_type
    }
}

/// The report on a pool whose frequency is limited.
#[derive(Debug)]
pub struct LimitedMetrics {
    pub timestamp: u64,
    pub account: String,
    pub slot: u64,
    pub mint_a: String,
    pub mint_b: String,
    pub fee_percent: Binary64,
    pub initialized: bool,
    pub version: u8,
    pub last_log_interval: u64,
}

impl LimitedMetrics {
    /// The report says this of this pool.
    pub open spec fn reports(
        self,
        pool: SwapLayout,
        account: Seq<u8>,
        slot: u64,
        timestamp: u64,
    ) -> bool {
        &&& self.timestamp == timestamp
        &&& self.account@ == pubkey_text(account)
        &&& self.slot == slot
        &&& self.mint_a@ == pubkey_text(pool.mint_a)
        &&& self.mint_b@ == pubkey_text(pool.mint_b)
        &&& self.fee_percent == fee_percent(pool)
        &&& self.initialized == pool.is_initialized
        &&& self.version == pool.version
        &&& self.last_log_interval == LOG_RATE_LIMIT_SECONDS
    }
}

/// Makes the report on a pool when reports are enabled, and the detail when that is enabled
/// as well.
pub fn log_pool_metrics(
    pool: &TokenSwapLayout,
    account: &Pubkey,
    slot: u64,
    timestamp: u64,
    debug: bool,
    trace: bool,
) -> (r: (Option<PoolMetrics>, Option<PoolDetail>))
    ensures
        r.0 is Some <==> debug,
        r.0 matches Some(metrics) ==> metrics.reports(pool@, account@, slot, timestamp),
        r.1 is Some <==> debug && trace,
        r.1 matches Some(detail) ==> detail.reports(pool@, account@),
{
    if !debug {
        return (None, None);
    }
    let metrics = PoolMetrics {
        timestamp,
        account: from_Pubkey(*account),
        slot,
        mint_a: from_Pubkey(pool.mint_a),
        mint_b: from_Pubkey(pool.mint_b),
        token_vault_a: from_Pubkey(pool.token_account_a),
        token_vault_b: from_Pubkey(pool.token_account_b),
        fee_percent: calculate_fee_percent(pool),
        fee_num: pool.trade_fee_numerator,
        fee_denom: pool.trade_fee_denominator,
        owner_fee_num: pool.owner_trade_fee_numerator,
        owner_fee_denom: pool.owner_trade_fee_denominator,
        host_fee_num: pool.host_fee_numerator,
        host_fee_denom: pool.host_fee_denominator,
        initialized: pool.is_initialized,
        version: pool.version,
        curve_type: pool.curve_type,
    };
    if !trace {
        return (Some(metrics), None);
    }
    let mut curve_params: Vec<u8> = Vec::new();
    let mut i: usize = 0;
    while i < 8
        invariant
            i <= 8,
            curve_params@ == pool.curve_parameters@.take(i as int),
        decreases 8 - i,
    {
        curve_params.push(pool.curve_parameters[i]);
        i = i + 1;
        assert(curve_params@ =~= pool.curve_parameters@.take(i as int));
    }
    let detail = PoolDetail {
        account: from_Pubkey(*account),
        pool_token: from_Pubkey(pool.token_pool),
        fee_account: from_Pubkey(pool.fee_account),
        bump_seed: pool.bump_seed,
        owner_withdraw_fee_num: pool.owner_withdraw_fee_numerator,
        owner_withdraw_fee_denom: pool.owner_withdraw_fee_denominator,
        curve_params,
    };
    (Some(metrics), Some(detail))
}

/// Makes the record of a pool for machines when reports are enabled.
pub fn log_pool_metrics_json(
    pool: &TokenSwapLayout,
    account: &Pubkey,
    slot: u64,
    timestamp: u64,
    debug: bool,
) -> (r: Option<PoolMetricsRecord>)
    ensures
        r is Some <==> debug,
        r matches Some(record) ==> record.reports(pool@, account@, slot, timestamp),
{
    if !debug {
        return None;
    }
    Some(
        PoolMetricsRecord {
            timestamp,
            account: from_Pubkey(*account),
            slot,
            mint_a: from_Pubkey(pool.mint_a),
            mint_b: from_Pubkey(pool.mint_b),
            token_vault_a: from_Pubkey(pool.token_account_a),
            token_vault_b: from_Pubkey(pool.token_account_b),
            pool_token: from_Pubkey(pool.token_pool),
            fee_account: from_Pubkey(pool.fee_account),
            trade_fee_rate_percent: calculate_fee_percent(pool),
            trade_fee_numerator: pool.trade_fee_numerator,
            trade_fee_denominator: pool.trade_fee_denominator,
            owner_trade_fee_numerator: pool.owner_trade_fee_numerator,
            owner_trade_fee_denominator: pool.owner_trade_fee_denominator,
            owner_withdraw_fee_numerator: pool.owner_withdraw_fee_numerator,
            owner_withdraw_fee_denominator: pool.owner_withdraw_fee_denominator,
            host_fee_numerator: pool.host_fee_numerator,
            host_fee_denominator: pool.host_fee_denominator,
            version: pool.version,
            is_initialized: pool.is_initialized,
            bump_seed: pool.bump_seed,
            curve_type: pool.curve_type,
        },
    )
}

/// What comes of asking for a limited report.
#[derive(Debug)]
pub enum LimitedReport {
    /// The report.
    Made(LimitedMetrics),
    /// Reports are not enabled, or the last one on the account is too recent.
    Withheld,
    /// The last report on the account lies in the future.
    ClockWentBack,
}

/// When each account was last reported on.
pub struct RateLimiter {
    last_times: NameTable<u64>,
}

impl View for RateLimiter {
    type V = Map<Seq<char>, u64>;

    closed spec fn view(&self) -> Map<Seq<char>, u64> {
        self.last_times@
    }
}

/// An account may be reported on when it never was, or long enough ago.
pub open spec fn allows(times: Map<Seq<char>, u64>, account: Seq<char>, now: u64) -> bool {
    !times.contains_key(account) || now - times[account] >= LOG_RATE_LIMIT_SECONDS
}

/// The times after a report on an account was asked for.
pub open spec fn times_after(
    times: Map<Seq<char>, u64>,
    account: Seq<char>,
    now: u64,
) -> Map<Seq<char>, u64> {
    if allows(times, account, now) {
        times.insert(account, now)
    } else {
        times
    }
}

impl RateLimiter {
    /// The times are in order.
    pub closed spec fn well_formed(self) -> bool {
        self.last_times.well_formed()
    }

    /// No account was reported on yet.
    pub fn new() -> (limiter: Self)
        ensures
            limiter.well_formed(),
            limiter@ == Map::<Seq<char>, u64>::empty(),
    {
        RateLimiter { last_times: NameTable::new() }
    }

    /// When an account was last reported on.
    pub fn last_time(&self, account: &str) -> (time: Option<u64>)
        requires
            self.well_formed(),
        ensures
            time == (if self@.contains_key(account@) {
                Some(self@[account@])
            } else {
                None
            }),
    {
        match self.last_times.get(account) {
            Some(time) => Some(*time),
            None => None,
        }
    }

    /// Whether an account may be reported on now; if so, that is noted. The clock must not have
    /// gone back since the account's last report.
    pub fn grant(&mut self, account: &str, now: u64) -> (given: bool)
        requires
            old(self).well_formed(),
            old(self)@.contains_key(account@) ==> old(self)@[account@] <= now,
        ensures
            final(self).well_formed(),
            given == allows(old(self)@, account@, now),
            final(self)@ == times_after(old(self)@, account@, now),
    {
        if let Some(last_time) = self.last_time(account) {
            if now - last_time < LOG_RATE_LIMIT_SECONDS {
                return false;
            }
        }
        self.last_times.insert(account.to_owned(), now);
        true
    }

    /// Makes the report on a pool when reports are enabled and the account was not reported on
    /// for long enough. Notes nothing where the clock has gone back since the account's last
    /// report.
    pub fn log_pool_metrics_rate_limited(
        &mut self,
        pool: &TokenSwapLayout,
        account: &Pubkey,
        slot: u64,
        now: u64,
        debug: bool,
    ) -> (r: LimitedReport)
        requires
            old(self).well_formed(),
        ensures
            final(self).well_formed(),
            ({
                let name = pubkey_text(account@);
                let times = old(self)@;
                if !debug {
                    r is Withheld && final(self)@ == times
                } else if times.contains_key(name) && times[name] > now {
                    r is ClockWentBack && final(self)@ == times
                } else {
                    &&& final(self)@ == times_after(times, name, now)
                    &&& if allows(times, name, now) {
                        r matches LimitedReport::Made(metrics) && metrics.reports(
                            pool@,
                            account@,
                            slot,
                            now,
                        )
                    } else {
                        r is Withheld
                    }
                }
            }),
    {
        if !debug {
            return LimitedReport::Withheld;
        }
        let account_str = from_Pubkey(*account);
        if let Some(last_time) = self.last_time(account_str.as_str()) {
            if last_time > now {
                return LimitedReport::ClockWentBack;
            }
        }
        if !self.grant(account_str.as_str(), now) {
            return LimitedReport::Withheld;
        }
        LimitedReport::Made(
            LimitedMetrics {
                timestamp: now,
                account: account_str,
                slot,
                mint_a: from_Pubkey(pool.mint_a),
                mint_b: from_Pubkey(pool.mint_b),
                fee_percent: calculate_fee_percent(pool),
                initialized: pool.is_initialized,
                version: pool.version,
                last_log_interval: LOG_RATE_LIMIT_SECONDS,
            },
        )
    }
}

/// The times after a row of requests, each for an account at a time, from the start.
pub open spec fn times_after_all(requests: Seq<(Seq<char>, u64)>) -> Map<Seq<char>, u64>
    decreases requests.len(),
{
    if requests.len() == 0 {
        Map::empty()
    } else {
        times_after(
            times_after_all(requests.drop_last()),
            requests.last().0,
            requests.last().1,
        )
    }
}

/// Whether the request at a position in a row is granted.
pub open spec fn granted(requests: Seq<(Seq<char>, u64)>, at: int) -> bool {
    allows(times_after_all(requests.take(at)), requests[at].0, requests[at].1)
}

proof fn lemma_last_granted(requests: Seq<(Seq<char>, u64)>, at: int)
    requires
        0 <= at < requests.len(),
        granted(requests, at),
        forall|i: int, j: int|
            0 <= i <= j < requests.len() ==> (#[trigger] requests[i]).1 <= (
            #[trigger] requests[j]).1,
    ensures
        times_after_all(requests).contains_key(requests[at].0),
        times_after_all(requests)[requests[at].0] >= requests[at].1,
    decreases requests.len(),
{
    let rest = requests.drop_last();
    let last = requests.len() - 1;
    if at < last {
        assert(rest.take(at) =~= requests.take(at));
        assert forall|i: int, j: int| 0 <= i <= j < rest.len() implies (#[trigger] rest[i]).1 <= (
        #[trigger] rest[j]).1 by {
            assert(requests[i].1 <= requests[j].1);
        }
        lemma_last_granted(rest, at);
        assert(requests[at].1 <= requests[last].1);
    } else {
        assert(requests.take(at) =~= rest);
    }
}

/// Two reports on one account are never less than the limit apart, as long as the clock does
/// not go back.
pub proof fn law_reports_are_spaced(requests: Seq<(Seq<char>, u64)>, first: int, second: int)
    requires
        0 <= first < second < requests.len(),
        requests[first].0 == requests[second].0,
        granted(requests, first),
        granted(requests, second),
        forall|i: int, j: int|
            0 <= i <= j < requests.len() ==> (#[trigger] requests[i]).1 <= (
            #[trigger] requests[j]).1,
    ensures
        requests[second].1 - requests[first].1 >= LOG_RATE_LIMIT_SECONDS,
{
    let row = requests.take(second);
    assert forall|i: int, j: int| 0 <= i <= j < row.len() implies (#[trigger] row[i]).1 <= (
    #[trigger] row[j]).1 by {
        assert(requests[i].1 <= requests[j].1);
    }
    assert(row.take(first) =~= requests.take(first));
    lemma_last_granted(row, first);
}

/// A request that is refused leaves no trace: what is granted later does not depend on it.
pub proof fn law_refusal_leaves_no_trace(
    times: Map<Seq<char>, u64>,
    account: Seq<char>,
    now: u64,
)
    requires
        !allows(times, account, now),
    ensures
        times_after(times, account, now) == times,
{
}

/// A report on a pool names its account, its tokens and its vaults, and shows its fees and its
/// state, each from the field of that meaning.
pub proof fn law_a_report_shows_the_pool(
    report: PoolMetrics,
    pool: SwapLayout,
    account: Seq<u8>,
    slot: u64,
    timestamp: u64,
)
    requires
        report.reports(pool, account, slot, timestamp),
    ensures
        report.timestamp == timestamp,
        report.account@ == pubkey_text(account),
        report.slot == slot,
        report.mint_a@ == pubkey_text(pool.mint_a),
        report.mint_b@ == pubkey_text(pool.mint_b),
        report.token_vault_a@ == pubkey_text(pool.token_account_a),
        report.token_vault_b@ == pubkey_text(pool.token_account_b),
        report.fee_percent == fee_percent(pool),
        report.fee_num == pool.trade_fee_numerator,
        report.fee_denom == pool.trade_fee_denominator,
        report.owner_fee_num == pool.owner_trade_fee_numerator,
        report.owner_fee_denom == pool.owner_trade_fee_denominator,
        report.host_fee_num == pool.host_fee_numerator,
        report.host_fee_denom == pool.host_fee_denominator,
        report.initialized == pool.is_initialized,
        report.version == pool.version,
        report.curve_type == pool.curve_type,
{
}

/// The detail names the pool's account, token and fee account, and shows its seed, its
/// withdrawal fee and the first eight bytes of its parameters.
pub proof fn law_a_detail_shows_the_pool(detail: PoolDetail, pool: SwapLayout, account: Seq<u8>)
    requires
        detail.reports(pool, account),
        pool.curve_parameters.len() == 32,
    ensures
        detail.account@ == pubkey_text(account),
        detail.pool_token@ == pubkey_text(pool.token_pool),
        detail.fee_account@ == pubkey_text(pool.fee_account),
        detail.bump_seed == pool.bump_seed,
        detail.owner_withdraw_fee_num == pool.owner_withdraw_fee_numerator,
        detail.owner_withdraw_fee_denom == pool.owner_withdraw_fee_denominator,
        detail.curve_params@.len() == 8,
        forall|i: int| 0 <= i < 8 ==> #[trigger] detail.curve_params@[i] == pool.curve_parameters[i],
{
}

/// The record for machines shows every fee and address of the pool, each from the field of that
/// meaning.
pub proof fn law_a_record_shows_the_pool(
    record: PoolMetricsRecord,
    pool: SwapLayout,
    account: Seq<u8>,
    slot: u64,
    timestamp: u64,
)
    requires
        record.reports(pool, account, slot, timestamp),
    ensures
        record.timestamp == timestamp,
        record.account@ == pubkey_text(account),
        record.slot == slot,
        record.mint_a@ == pubkey_text(pool.mint_a),
        record.mint_b@ == pubkey_text(pool.mint_b),
        record.token_vault_a@ == pubkey_text(pool.token_account_a),
        record.token_vault_b@ == pubkey_text(pool.token_account_b),
        record.pool_token@ == pubkey_text(pool.token_pool),
        record.fee_account@ == pubkey_text(pool.fee_account),
        record.trade_fee_rate_percent == fee_percent(pool),
        record.trade_fee_numerator == pool.trade_fee_numerator,
        record.trade_fee_denominator == pool.trade_fee_denominator,
        record.owner_trade_fee_numerator == pool.owner_trade_fee_numerator,
        record.owner_trade_fee_denominator == pool.owner_trade_fee_denominator,
        record.owner_withdraw_fee_numerator == pool.owner_withdraw_fee_numerator,
        record.owner_withdraw_fee_denominator == pool.owner_withdraw_fee_denominator,
        record.host_fee_numerator == pool.host_fee_numerator,
        record.host_fee_denominator == pool.host_fee_denominator,
        record.version == pool.version,
        record.is_initialized == pool.is_initialized,
        record.bump_seed == pool.bump_seed,
        record.curve_type == pool.curve_type,
{
}

/// A limited report names the account and the tokens, and shows the fee, the state and the
/// limit of ten seconds.
pub proof fn law_a_limited_report_shows_the_pool(
    report: LimitedMetrics,
    pool: SwapLayout,
    account: Seq<u8>,
    slot: u64,
    timestamp: u64,
)
    requires
        report.reports(pool, account, slot, timestamp),
    ensures
        report.timestamp == timestamp,
        report.account@ == pubkey_text(account),
        report.slot == slot,
        report.mint_a@ == pubkey_text(pool.mint_a),
        report.mint_b@ == pubkey_text(pool.mint_b),
        report.fee_percent == fee_percent(pool),
        report.initialized == pool.is_initialized,
        report.version == pool.version,
        report.last_log_interval == 10,
{
}

proof fn lemma_times_come_from_grants(requests: Seq<(Seq<char>, u64)>, account: Seq<char>) -> (at:
    int)
    requires
        times_after_all(requests).contains_key(account),
    ensures
        0 <= at < requests.len(),
        requests[at].0 == account,
        granted(requests, at),
        times_after_all(requests)[account] == requests[at].1,
    decreases requests.len(),
{
    let rest = requests.drop_last();
    let last = requests.len() - 1;
    assert(requests.take(last) =~= rest);
    if requests[last].0 == account && granted(requests, last) {
        last
    } else {
        let at = lemma_times_come_from_grants(rest, account);
        assert(rest.take(at) =~= requests.take(at));
        at
    }
}

/// A report is granted exactly when none was granted for the same account in the ten seconds
/// before. Other accounts, and requests that were refused, do not matter.
pub proof fn law_granted_exactly_when_due(requests: Seq<(Seq<char>, u64)>, at: int)
    requires
        0 <= at < requests.len(),
        forall|i: int, j: int|
            0 <= i <= j < requests.len() ==> (#[trigger] requests[i]).1 <= (
            #[trigger] requests[j]).1,
    ensures
        granted(requests, at) <==> (forall|i: int|
            0 <= i < at && (#[trigger] requests[i]).0 == requests[at].0 && granted(requests, i)
                ==> requests[at].1 - requests[i].1 >= 10),
{
    let row = requests.take(at);
    let account = requests[at].0;
    assert forall|i: int, j: int| 0 <= i <= j < row.len() implies (#[trigger] row[i]).1 <= (
    #[trigger] row[j]).1 by {
        assert(requests[i].1 <= requests[j].1);
    }
    if granted(requests, at) {
        assert forall|i: int|
            0 <= i < at && (#[trigger] requests[i]).0 == requests[at].0 && granted(
                requests,
                i,
            ) implies requests[at].1 - requests[i].1 >= 10 by {
            assert(row.take(i) =~= requests.take(i));
            assert(row[i] == requests[i]);
            lemma_last_granted(row, i);
        }
    } else {
        let i = lemma_times_come_from_grants(row, account);
        assert(row.take(i) =~= requests.take(i));
        assert(requests[i] == row[i]);
        assert(requests[i].0 == requests[at].0 && granted(requests, i));
        assert(requests[at].1 - requests[i].1 < 10);
    }
}

/// What is noted of a request: the time where it is granted, for its own account only. It is
/// granted where the account was never reported on, or ten seconds ago or more.
pub proof fn law_only_a_grant_is_noted(
    times: Map<Seq<char>, u64>,
    account: Seq<char>,
    now: u64,
    other: Seq<char>,
)
    requires
        other != account,
    ensures
        !times.contains_key(account) ==> allows(times, account, now),
        times.contains_key(account) ==> (allows(times, account, now) <==> times[account] + 10
            <= now),
        allows(times, account, now) ==> times_after(times, account, now).contains_key(account)
            && times_after(times, account, now)[account] == now,
        !allows(times, account, now) ==> times_after(times, account, now) == times,
        times_after(times, account, now).contains_key(other) <==> times.contains_key(other),
        times.contains_key(other) ==> times_after(times, account, now)[other] == times[other],
{
}

} // verus!
