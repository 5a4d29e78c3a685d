//! Following one pool account: its updates, the health of the connection, and reconnecting.

use crate::binary64::{
    at_most, law_a_ratio_is_accurate, law_a_ratio_is_rounded_twice,
    law_an_exact_division_gives_an_exact_product, law_ratio_stays_within_the_whole, ratio_times,
    units, Binary64,
};
use crate::layout::{
    unpack_from_slice, unpacked, ProgramError, SwapLayout, TokenSwapLayout, LAYOUT_LEN,
};
use crate::rounding::{converted, distance, is_nearest};
use base64::engine::general_purpose;
use base64::{DecodeError, Engine};
use vstd::arithmetic::power2::pow2;
use vstd::prelude::*;

verus! {

/// How long to wait before connecting again, in seconds.
pub const RECONNECT_DELAY_SECS: u64 = 5;

/// How many streams may fail before the account is given up.
pub const MAX_RECONNECT_ATTEMPTS: u32 = 10;

/// How often the health of a stream is looked at, in seconds.
pub const HEARTBEAT_INTERVAL_SECS: u64 = 30;

/// How long connecting may take, in seconds.
pub const CONNECTION_TIMEOUT_SECS: u64 = 10;

/// How long a stream may be silent before it counts as stale, in nanoseconds.
pub const STALE_AFTER_NANOS: u128 = 300_000_000_000;

/// What a fee of one, the whole amount, is in percent.
pub const PERCENT: u16 = 100;

/// How the data of an account is written in a notification.
#[derive(Clone, Copy, Debug, PartialEq, Eq, Structural)]
pub enum AccountEncoding {
    Binary,
    Base58,
    Base64,
    JsonParsed,
    Base64Zstd,
}

/// The data of an account in a notification.
#[derive(Debug)]
pub enum AccountPayload {
    /// A text, and how the data is written in it.
    Binary(String, AccountEncoding),
    /// Anything else.
    NotBinary,
}

/// Why the text of a notification is not base 64, as `base64` reports it.
#[verifier::external_type_specification]
#[verifier::external_body]
pub struct ExDecodeError(DecodeError);

/// Why a notification was not taken.
#[derive(Debug)]
pub enum UpdateError {
    /// The data is not in a text.
    NotBinary,
    /// The data is written in another way than base 64.
    UnsupportedEncoding(AccountEncoding),
    /// The text is not base 64.
    Decode(DecodeError),
    /// The data holds no pool.
    Unpack(ProgramError),
}

/// What `base64` reads out of a text in the standard alphabet with padding: the bytes, or why
/// there are none.
pub uninterp spec fn base64_decoded(text: Seq<char>) -> Result<Seq<u8>, DecodeError>;

/// Calls `decode` of the `STANDARD` engine of `base64`. Claims that the bytes, or the error,
/// depend on the text alone.
#[verifier::external_body]
fn decode_base64(text: &str) -> (r: Result<Vec<u8>, DecodeError>)
    ensures
        match r {
            Ok(bytes) => base64_decoded(text@) == Ok::<Seq<u8>, DecodeError>(bytes@),
            Err(error) => base64_decoded(text@) == Err::<Seq<u8>, DecodeError>(error),
        },
{
    general_purpose::STANDARD.decode(text)
}

/// The bytes in a notification.
pub open spec fn payload_bytes(payload: AccountPayload) -> Result<Seq<u8>, UpdateError> {
    match payload {
        AccountPayload::Binary(text, AccountEncoding::Base64) => match base64_decoded(text@) {
            Ok(bytes) => Ok(bytes),
            Err(error) => Err(UpdateError::Decode(error)),
        },
        AccountPayload::Binary(_, encoding) => Err(UpdateError::UnsupportedEncoding(encoding)),
        AccountPayload::NotBinary => Err(UpdateError::NotBinary),
    }
}

/// The trade fee of a pool in percent, in double precision; zero where it is no ratio.
pub open spec fn fee_percent(pool: SwapLayout) -> Binary64 {
    if pool.trade_fee_denominator != 0 {
        ratio_times(pool.trade_fee_numerator, pool.trade_fee_denominator, PERCENT as nat)
    } else {
        Binary64::Finite { mantissa: 0, exponent: 0 }
    }
}

/// How many updates a stream has brought, and when the last one came. Instants are counted in
/// nanoseconds from a fixed start.
#[derive(Clone, Copy, Debug, PartialEq, Eq, Structural)]
pub struct StreamStats {
    pub updates: u64,
    pub last_update: u128,
}

impl StreamStats {
    /// The counters at the start of a stream: no update has come, and the silence is counted
    /// from now.
    pub fn new(now: u128) -> (stats: Self)
        ensures
            stats.updates == 0,
            stats.last_update == now,
    {
        StreamStats { updates: 0, last_update: now }
    }
}

/// An update of a pool.
#[derive(Debug)]
pub struct PoolUpdate {
    /// The number of the update, counting from one.
    pub number: u64,
    pub pool: TokenSwapLayout,
    pub fee_percent: Binary64,
}

/// The counters after an update. The count starts over where it would not fit any more.
pub open spec fn counted(stats: StreamStats, now: u128) -> StreamStats {
    StreamStats {
        updates: if stats.updates == u64::MAX {
            0
        } else {
            (stats.updates + 1) as u64
        },
        last_update: now,
    }
}

/// A notification brings an update when its bytes are those of a pool.
pub open spec fn brings_update(bytes: Result<Seq<u8>, UpdateError>) -> bool {
    bytes matches Ok(data) && data.len() == LAYOUT_LEN
}

/// The counters after a notification with these bytes. Only an update changes them.
pub open spec fn stats_after(
    stats: StreamStats,
    bytes: Result<Seq<u8>, UpdateError>,
    now: u128,
) -> StreamStats {
    if brings_update(bytes) {
        counted(stats, now)
    } else {
        stats
    }
}

/// Account data of at most the layout's length is taken: it gives `r` and leaves `after`.
pub open spec fn data_taken(
    data: Seq<u8>,
    now: u128,
    before: StreamStats,
    after: StreamStats,
    r: Result<PoolUpdate, UpdateError>,
) -> bool {
    match unpacked(data) {
        Ok(pool) => {
            &&& after == counted(before, now)
            &&& r matches Ok(update) && update.number == after.updates && update.pool@ == pool
                && update.fee_percent == fee_percent(pool)
        },
        Err(error) => {
            &&& after == before
            &&& r == Err::<PoolUpdate, UpdateError>(UpdateError::Unpack(error))
        },
    }
}

/// The trade fee of a pool in percent.
pub fn calculate_fee_percent(pool: &TokenSwapLayout) -> (fee: Binary64)
    ensures
        fee == fee_percent(pool@),
        fee.well_formed(),
{
    if pool.trade_fee_denominator != 0 {
        Binary64::from_ratio(pool.trade_fee_numerator, pool.trade_fee_denominator, PERCENT)
    } else {
        Binary64::Finite { mantissa: 0, exponent: 0 }
    }
}

/// A fee of at most the whole amount is at most the whole in percent.
pub proof fn law_fee_percent_is_at_most_the_whole(pool: SwapLayout)
    requires
        pool.trade_fee_numerator <= pool.trade_fee_denominator <= u64::MAX,
    ensures
        at_most(fee_percent(pool), PERCENT as nat),
{
    if pool.trade_fee_denominator != 0 {
        law_ratio_stays_within_the_whole(
            pool.trade_fee_numerator,
            pool.trade_fee_denominator,
            PERCENT as nat,
        );
    }
}

/// Reads the bytes out of a notification.
pub fn decode_payload(payload: &AccountPayload) -> (r: Result<Vec<u8>, UpdateError>)
    ensures
        match r {
            Ok(bytes) => payload_bytes(*payload) == Ok::<Seq<u8>, UpdateError>(bytes@),
            Err(error) => payload_bytes(*payload) == Err::<Seq<u8>, UpdateError>(error),
        },
{
    match payload {
        AccountPayload::Binary(text, encoding) => match encoding {
            AccountEncoding::Base64 => match decode_base64(text.as_str()) {
                Ok(bytes) => Ok(bytes),
                Err(error) => Err(UpdateError::Decode(error)),
            },
            _ => Err(UpdateError::UnsupportedEncoding(*encoding)),
        },
        AccountPayload::NotBinary => Err(UpdateError::NotBinary),
    }
}

/// Takes the data of an account that a notification brought at the instant `now`.
pub fn apply_account_data(data: &[u8], stats: &mut StreamStats, now: u128) -> (r: Result<
    PoolUpdate,
    UpdateError,
>)
    requires
        data@.len() <= LAYOUT_LEN,
    ensures
        data_taken(data@, now, *old(stats), *final(stats), r),
{
    match unpack_from_slice(data) {
        Ok(pool) => {
            stats.updates = stats.updates.wrapping_add(1);
            stats.last_update = now;
            let fee = calculate_fee_percent(&pool);
            Ok(PoolUpdate { number: stats.updates, pool, fee_percent: fee })
        },
        Err(error) => Err(UpdateError::Unpack(error)),
    }
}

/// Takes a notification that came at the instant `now`. Gives nothing, and counts nothing,
/// where the data is longer than the layout.
pub fn process_account_update(
    payload: &AccountPayload,
    stats: &mut StreamStats,
    now: u128,
) -> (r: Option<Result<PoolUpdate, UpdateError>>)
    ensures
        match payload_bytes(*payload) {
            Ok(data) => if data.len() <= LAYOUT_LEN {
                r matches Some(taken) && data_taken(data, now, *old(stats), *final(stats), taken)
            } else {
                r is None
            },
            Err(error) => r == Some(Err::<PoolUpdate, UpdateError>(error)),
        },
        *final(stats) == stats_after(*old(stats), payload_bytes(*payload), now),
{
    match decode_payload(payload) {
        Ok(data) => if data.len() <= LAYOUT_LEN {
            Some(apply_account_data(data.as_slice(), stats, now))
        } else {
            None
        },
        Err(error) => Some(Err(error)),
    }
}

/// A notification that came at an instant.
pub ghost struct Arrival {
    pub bytes: Result<Seq<u8>, UpdateError>,
    pub now: u128,
}

/// The counters after a row of notifications.
pub open spec fn stats_after_all(stats: StreamStats, arrivals: Seq<Arrival>) -> StreamStats
    decreases arrivals.len(),
{
    if arrivals.len() == 0 {
        stats
    } else {
        stats_after(
            stats_after_all(stats, arrivals.drop_last()),
            arrivals.last().bytes,
            arrivals.last().now,
        )
    }
}

/// The notifications in a row that bring an update.
pub open spec fn updates_in(arrivals: Seq<Arrival>) -> Seq<Arrival> {
    arrivals.filter(|arrival: Arrival| brings_update(arrival.bytes))
}

/// Each update in a row of notifications is counted once, whatever comes between, and the
/// last one tells when the stream was last heard of. The count starts over at two to the 64th.
pub proof fn law_every_update_is_counted(stats: StreamStats, arrivals: Seq<Arrival>)
    ensures
        stats_after_all(stats, arrivals).updates == (stats.updates + updates_in(arrivals).len())
            % 0x1_0000_0000_0000_0000,
        stats_after_all(stats, arrivals).last_update == (if updates_in(arrivals).len() == 0 {
            stats.last_update
        } else {
            updates_in(arrivals).last().now
        }),
    decreases arrivals.len(),
{
    reveal(Seq::filter);
    if arrivals.len() > 0 {
        law_every_update_is_counted(stats, arrivals.drop_last());
    }
}

/// How a stream fails.
#[derive(Clone, Copy, Debug, PartialEq, Eq, Structural)]
pub enum StreamError {
    /// Connecting took too long.
    ConnectionTimeout,
    /// The subscription was refused.
    SubscriptionFailed,
    /// The connection broke.
    ReceiverFailed,
}

/// How an attempt to connect ends.
#[derive(Clone, Copy, Debug, PartialEq, Eq, Structural)]
pub enum ConnectOutcome {
    TimedOut,
    Refused,
    Connected,
}

/// Whether a stream is open after an attempt to connect.
pub fn on_connect(outcome: ConnectOutcome) -> (r: Result<(), StreamError>)
    ensures
        r == match outcome {
            ConnectOutcome::TimedOut => Err::<(), StreamError>(StreamError::ConnectionTimeout),
            ConnectOutcome::Refused => Err::<(), StreamError>(StreamError::SubscriptionFailed),
            ConnectOutcome::Connected => Ok::<(), StreamError>(()),
        },
{
    match outcome {
        ConnectOutcome::TimedOut => Err(StreamError::ConnectionTimeout),
        ConnectOutcome::Refused => Err(StreamError::SubscriptionFailed),
        ConnectOutcome::Connected => Ok(()),
    }
}

/// What happens on an open stream.
#[derive(Clone, Copy, Debug, PartialEq, Eq, Structural)]
pub enum StreamEvent {
    /// A notification was processed.
    Processed { taken: bool },
    /// No more notifications can be received.
    ReceiverError,
    /// It is time to look at the health of the stream.
    Heartbeat { now: u128 },
    /// The program is asked to end.
    Shutdown,
}

/// The health of a stream.
#[derive(Clone, Copy, Debug, PartialEq, Eq, Structural)]
pub struct HealthReport {
    pub updates: u64,
    /// How long ago the last update came, in nanoseconds.
    pub idle: u128,
    /// No update came for longer than a stream may be silent.
    pub stale: bool,
}

/// What to do after an event on an open stream.
#[derive(Clone, Copy, Debug, PartialEq, Eq, Structural)]
pub enum StreamAction {
    /// Report the update and go on.
    ReportUpdate,
    /// Report that the notification was not taken and go on.
    ReportRejection,
    /// Report the health of the stream and go on.
    ReportHealth(HealthReport),
    /// End the stream in good order.
    Close,
    /// End the stream with an error.
    Fail(StreamError),
}

/// The health of a stream at an instant. An instant before the last update counts as that of
/// the update.
pub open spec fn health(stats: StreamStats, now: u128) -> HealthReport {
    let idle = if now >= stats.last_update {
        (now - stats.last_update) as u128
    } else {
        0
    };
    HealthReport { updates: stats.updates, idle, stale: idle > STALE_AFTER_NANOS }
}

/// What to do after an event on an open stream.
pub open spec fn reaction(stats: StreamStats, event: StreamEvent) -> StreamAction {
    match event {
        StreamEvent::Processed { taken } => if taken {
            StreamAction::ReportUpdate
        } else {
            StreamAction::ReportRejection
        },
        StreamEvent::ReceiverError => StreamAction::Fail(StreamError::ReceiverFailed),
        StreamEvent::Heartbeat { now } => StreamAction::ReportHealth(health(stats, now)),
        StreamEvent::Shutdown => StreamAction::Close,
    }
}

/// Decides what to do after an event on an open stream.
pub fn stream_step(stats: &StreamStats, event: StreamEvent) -> (action: StreamAction)
    ensures
        action == reaction(*stats, event),
{
    match event {
        StreamEvent::Processed { taken } => if taken {
            StreamAction::ReportUpdate
        } else {
            StreamAction::ReportRejection
        },
        StreamEvent::ReceiverError => StreamAction::Fail(StreamError::ReceiverFailed),
        StreamEvent::Heartbeat { now } => {
            let idle: u128 = now.saturating_sub(stats.last_update);
            StreamAction::ReportHealth(
                HealthReport { updates: stats.updates, idle, stale: idle > STALE_AFTER_NANOS },
            )
        },
        StreamEvent::Shutdown => StreamAction::Close,
    }
}

/// A stream goes on after an event unless it is closed or fails.
pub open spec fn goes_on(action: StreamAction) -> bool {
    !(action is Close) && !(action is Fail)
}

/// An open stream ends in two ways only: in good order when the program is asked to end, and
/// with an error when the connection breaks. A notification that is not taken does not end it.
pub proof fn law_what_ends_a_stream(stats: StreamStats, event: StreamEvent)
    ensures
        reaction(stats, event) is Close <==> event is Shutdown,
        reaction(stats, event) is Fail <==> event is ReceiverError,
        goes_on(reaction(stats, event)) <==> event is Processed || event is Heartbeat,
{
}

/// What to do after a stream has ended.
#[derive(Clone, Copy, Debug, PartialEq, Eq, Structural)]
pub enum ReconnectAction {
    /// The stream ended in good order: stop.
    Finish,
    /// Wait for so many seconds and connect again.
    Retry { delay_secs: u64 },
    /// Too many streams failed: stop with the last error.
    GiveUp(StreamError),
}

/// Counts the streams that failed.
#[derive(Clone, Copy, Debug, PartialEq, Eq, Structural)]
pub struct Reconnector {
    attempts: u32,
}

impl View for Reconnector {
    type V = u32;

    closed spec fn view(&self) -> u32 {
        self.attempts
    }
}

/// The count after a stream has ended.
pub open spec fn attempts_after(attempts: u32, outcome: Result<(), StreamError>) -> u32 {
    match outcome {
        Ok(_) => attempts,
        Err(_) => (attempts + 1) as u32,
    }
}

/// What to do after a stream has ended.
pub open spec fn next_action(
    attempts: u32,
    outcome: Result<(), StreamError>,
) -> ReconnectAction {
    match outcome {
        Ok(_) => ReconnectAction::Finish,
        Err(error) => if attempts + 1 >= MAX_RECONNECT_ATTEMPTS {
            ReconnectAction::GiveUp(error)
        } else {
            ReconnectAction::Retry { delay_secs: RECONNECT_DELAY_SECS }
        },
    }
}

impl Reconnector {
    /// Another stream may be opened.
    pub open spec fn well_formed(self) -> bool {
        self@ < MAX_RECONNECT_ATTEMPTS
    }

    /// No stream has failed yet.
    pub fn new() -> (r: Self)
        ensures
            r@ == 0,
            r.well_formed(),
    {
        Reconnector { attempts: 0 }
    }

    /// How many streams have failed.
    pub fn attempts(&self) -> (n: u32)
        ensures
            n == self@,
    {
        self.attempts
    }

    /// Decides what to do after a stream has ended.
    pub fn on_stream_end(&mut self, outcome: Result<(), StreamError>) -> (action: ReconnectAction)
        requires
            old(self).well_formed(),
        ensures
            final(self)@ == attempts_after(old(self)@, outcome),
            action == next_action(old(self)@, outcome),
            action is Retry ==> final(self).well_formed(),
    {
        match outcome {
            Ok(_) => ReconnectAction::Finish,
            Err(error) => {
                self.attempts = self.attempts + 1;
                if self.attempts >= MAX_RECONNECT_ATTEMPTS {
                    ReconnectAction::GiveUp(error)
                } else {
                    ReconnectAction::Retry { delay_secs: RECONNECT_DELAY_SECS }
                }
            },
        }
    }
}

/// The count after some streams have failed one after the other, from the start.
pub open spec fn attempts_after_failures(failures: Seq<StreamError>) -> u32
    decreases failures.len(),
{
    if failures.len() == 0 {
        0
    } else {
        attempts_after(
            attempts_after_failures(failures.drop_last()),
            Err::<(), StreamError>(failures.last()),
        )
    }
}

/// Every failure but the last allowed one is followed by another attempt after the delay; the
/// last allowed one is final, and its error is the one that comes out.
pub proof fn law_gives_up_at_the_limit(failures: Seq<StreamError>, error: StreamError)
    requires
        failures.len() < MAX_RECONNECT_ATTEMPTS,
    ensures
        attempts_after_failures(failures) == failures.len(),
        next_action(attempts_after_failures(failures), Err(error)) == (if failures.len() + 1
            == MAX_RECONNECT_ATTEMPTS {
            ReconnectAction::GiveUp(error)
        } else {
            ReconnectAction::Retry { delay_secs: RECONNECT_DELAY_SECS }
        }),
    decreases failures.len(),
{
    if failures.len() > 0 {
        law_gives_up_at_the_limit(failures.drop_last(), failures.last());
    }
}

/// The bytes of a notification are those that its base-64 text stands for. There are none
/// exactly where the data is in no text, where the text is written in another way, and where it
/// is not base 64; each has its own error.
pub proof fn law_only_base_64_is_read(payload: AccountPayload)
    ensures
        match payload {
            AccountPayload::Binary(text, encoding) => {
                &&& encoding != AccountEncoding::Base64 ==> payload_bytes(payload) == Err::<
                    Seq<u8>,
                    UpdateError,
                >(UpdateError::UnsupportedEncoding(encoding))
                &&& encoding == AccountEncoding::Base64 && base64_decoded(text@) is Ok
                    ==> payload_bytes(payload) == Ok::<Seq<u8>, UpdateError>(
                    base64_decoded(text@)->Ok_0,
                )
                &&& encoding == AccountEncoding::Base64 && base64_decoded(text@) is Err
                    ==> payload_bytes(payload) == Err::<Seq<u8>, UpdateError>(
                    UpdateError::Decode(base64_decoded(text@)->Err_0),
                )
            },
            AccountPayload::NotBinary => payload_bytes(payload) == Err::<Seq<u8>, UpdateError>(
                UpdateError::NotBinary,
            ),
        },
{
}

/// The data of a whole account is always taken: it is counted once, the instant is noted, and
/// the update has the new count and the pool that the data holds. Data that is too short is
/// refused and leaves the counters as they were.
pub proof fn law_whole_accounts_are_taken(
    data: Seq<u8>,
    now: u128,
    before: StreamStats,
    after: StreamStats,
    r: Result<PoolUpdate, UpdateError>,
)
    requires
        data_taken(data, now, before, after, r),
        data.len() <= 324,
    ensures
        data.len() == 324 ==> {
            &&& after.updates == (before.updates + 1) % 0x1_0000_0000_0000_0000
            &&& after.last_update == now
            &&& r matches Ok(update) && update.number == after.updates && unpacked(data) == Ok::<
                SwapLayout,
                ProgramError,
            >(update.pool@) && update.fee_percent == fee_percent(update.pool@)
        },
        data.len() < 324 ==> {
            &&& after == before
            &&& r == Err::<PoolUpdate, UpdateError>(
                UpdateError::Unpack(ProgramError::InvalidAccountData),
            )
        },
{
}

/// The fee in percent depends on the trade fee alone: pools with the same trade fee show the
/// same, whatever else is in them. It is zero where the trade fee is no ratio.
pub proof fn law_percent_depends_on_the_trade_fee_alone(a: SwapLayout, b: SwapLayout)
    requires
        a.trade_fee_numerator == b.trade_fee_numerator,
        a.trade_fee_denominator == b.trade_fee_denominator,
    ensures
        fee_percent(a) == fee_percent(b),
        a.trade_fee_denominator == 0 ==> at_most(fee_percent(a), 0),
{
    assert(0 * pow2(0) == 0) by (nonlinear_arith);
}

/// The health of a stream tells its count, and the time since its last update. It is stale
/// exactly when that is longer than five minutes.
pub proof fn law_silence_makes_a_stream_stale(stats: StreamStats, now: u128)
    ensures
        reaction(stats, StreamEvent::Heartbeat { now }) matches StreamAction::ReportHealth(report)
            && report.updates == stats.updates && (stats.last_update <= now
            ==> stats.last_update + report.idle == now) && (now < stats.last_update ==> report.idle
            == 0) && (report.stale <==> stats.last_update + 300_000_000_000 < now),
{
}

/// Each event on an open stream has its own reaction: an update is reported exactly when a
/// notification was taken, a rejection when one was not.
pub proof fn law_every_event_is_answered(stats: StreamStats, event: StreamEvent)
    ensures
        reaction(stats, event) is ReportUpdate <==> event == (StreamEvent::Processed {
            taken: true,
        }),
        reaction(stats, event) is ReportRejection <==> event == (StreamEvent::Processed {
            taken: false,
        }),
        reaction(stats, event) is ReportHealth <==> event is Heartbeat,
        reaction(stats, event) == StreamAction::Close <==> event == StreamEvent::Shutdown,
        reaction(stats, event) == StreamAction::Fail(StreamError::ReceiverFailed) <==> event
            == StreamEvent::ReceiverError,
{
}

/// A stream that ended in good order is never followed by another one, however many failed
/// before; and nothing else finishes the work. Only a failure is counted.
pub proof fn law_a_good_end_is_final(attempts: u32, outcome: Result<(), StreamError>)
    requires
        attempts < 10,
    ensures
        next_action(attempts, outcome) == ReconnectAction::Finish <==> outcome is Ok,
        outcome is Ok ==> attempts_after(attempts, outcome) == attempts,
        outcome is Err ==> attempts_after(attempts, outcome) == attempts + 1,
{
}

/// A failure is followed by another attempt after five seconds as long as fewer than ten
/// streams have failed with it; the tenth failure is the last, and its error comes out.
pub proof fn law_ten_failures_are_allowed(attempts: u32, error: StreamError)
    requires
        attempts < 10,
    ensures
        next_action(attempts, Err(error)) is Retry <==> attempts_after(attempts, Err(error)) < 10,
        next_action(attempts, Err(error)) is GiveUp <==> attempts_after(attempts, Err(error)) == 10,
        next_action(attempts, Err(error)) matches ReconnectAction::Retry { delay_secs }
            ==> delay_secs == 5,
        next_action(attempts, Err(error)) matches ReconnectAction::GiveUp(last) ==> last == error,
{
}

/// The fee in percent is the trade fee times a hundred, off by no more than one part in two to the 50th,
/// whatever the other fees are.
pub proof fn law_percent_is_the_trade_fee(pool: SwapLayout)
    requires
        pool.trade_fee_numerator <= u64::MAX,
        0 < pool.trade_fee_denominator <= u64::MAX,
    ensures
        fee_percent(pool) is Finite,
        distance(
            (units(fee_percent(pool)) * pool.trade_fee_denominator) as int,
            (100 * pool.trade_fee_numerator * pow2(117)) as int,
        ) * 0x4_0000_0000_0000 <= 100 * pool.trade_fee_numerator * pow2(117),
{
    law_a_ratio_is_accurate(pool.trade_fee_numerator, pool.trade_fee_denominator, 100);
}

/// The fee in percent is rounded twice, and in no other way: it is the double nearest to a hundred times the
/// double nearest to the trade fee's ratio, which is the result here.
pub proof fn law_percent_is_rounded_twice(pool: SwapLayout) -> (q: (nat, int))
    requires
        0 < pool.trade_fee_numerator <= u64::MAX,
        0 < pool.trade_fee_denominator <= u64::MAX,
    ensures
        is_nearest(
            q.0,
            q.1,
            converted(pool.trade_fee_numerator),
            converted(pool.trade_fee_denominator),
        ),
        fee_percent(pool) matches Binary64::Finite { mantissa, exponent } && is_nearest(
            mantissa as nat,
            exponent - q.1,
            q.0 * 100,
            1,
        ),
{
    law_a_ratio_is_rounded_twice(pool.trade_fee_numerator, pool.trade_fee_denominator, 100)
}

/// Where a double holds the trade fee's ratio, as `c` parts of two to the `j`, the fee in percent
/// is exactly a hundred times the trade fee.
pub proof fn law_percent_is_exact(pool: SwapLayout, c: nat, j: nat)
    requires
        pool.trade_fee_numerator <= 0x20_0000_0000_0000,
        0 < pool.trade_fee_denominator <= 0x20_0000_0000_0000,
        pool.trade_fee_numerator * pow2(j) == c * pool.trade_fee_denominator,
        c * 100 <= 0x20_0000_0000_0000,
        j <= 117,
    ensures
        units(fee_percent(pool)) * pool.trade_fee_denominator == 100 * pool.trade_fee_numerator * pow2(
            117,
        ),
{
    law_an_exact_division_gives_an_exact_product(
        pool.trade_fee_numerator,
        pool.trade_fee_denominator,
        100,
        c,
        j,
    );
}

/// Only the data of a whole account changes the counters: it adds one to the count, which
/// starts over at two to the 64th, and notes the instant. Data of any other length, and a
/// notification without bytes, leave both as they are.
pub proof fn law_only_whole_accounts_change_the_counters(
    stats: StreamStats,
    bytes: Result<Seq<u8>, UpdateError>,
    now: u128,
)
    ensures
        bytes is Ok && bytes->Ok_0.len() == 324 ==> {
            &&& stats_after(stats, bytes, now).updates == (stats.updates + 1)
                % 0x1_0000_0000_0000_0000
            &&& stats_after(stats, bytes, now).last_update == now
        },
        bytes is Err || bytes->Ok_0.len() != 324 ==> stats_after(stats, bytes, now) == stats,
{
}

/// Connecting may take ten seconds, and the health of a stream is looked at every half minute.
pub proof fn law_how_long_a_stream_is_waited_for()
    ensures
        CONNECTION_TIMEOUT_SECS == 10,
        HEARTBEAT_INTERVAL_SECS == 30,
{
}

} // verus!
