use base64::engine::general_purpose;
use base64::{DecodeError, Engine};
use orca_pools::binary64::Binary64;
use orca_pools::keys::{from_Pubkey, Pubkey};
use orca_pools::layout::{unpack_from_slice, ProgramError, TokenSwapLayout, LAYOUT_LEN};
use orca_pools::metrics::{
    log_pool_metrics, log_pool_metrics_json, LimitedReport, RateLimiter, LOG_RATE_LIMIT_SECONDS,
};
use orca_pools::stream::{
    apply_account_data, decode_payload, on_connect, process_account_update, stream_step,
    AccountEncoding, AccountPayload, ConnectOutcome, HealthReport, ReconnectAction, Reconnector,
    StreamAction, StreamError, StreamEvent, StreamStats, UpdateError, MAX_RECONNECT_ATTEMPTS,
};

fn data(numerator: u64, denominator: u64) -> Vec<u8> {
    let mut data: Vec<u8> = (0..LAYOUT_LEN).map(|i| (i % 256) as u8).collect();
    data[227..235].copy_from_slice(&numerator.to_le_bytes());
    data[235..243].copy_from_slice(&denominator.to_le_bytes());
    data
}

fn pool(numerator: u64, denominator: u64) -> TokenSwapLayout {
    unpack_from_slice(&data(numerator, denominator)).unwrap()
}

fn payload(bytes: &[u8]) -> AccountPayload {
    AccountPayload::Binary(general_purpose::STANDARD.encode(bytes), AccountEncoding::Base64)
}

fn fresh() -> StreamStats {
    StreamStats::new(1000)
}

#[test]
fn base_64_is_decoded() {
    let hello = AccountPayload::Binary("aGVsbG8=".to_string(), AccountEncoding::Base64);
    assert_eq!(decode_payload(&hello).unwrap(), b"hello".to_vec());
}

#[test]
fn an_update_is_counted() {
    let mut stats = fresh();
    let update = process_account_update(&payload(&data(1, 4)), &mut stats, 5000).unwrap().unwrap();
    assert_eq!(update.number, 1);
    assert_eq!(update.pool.trade_fee_denominator, 4);
    assert_eq!(update.pool.mint_a.bytes[0], 131);
    assert_eq!(update.fee_percent.to_u64(), 25);
    assert_eq!(stats, StreamStats { updates: 1, last_update: 5000 });
    let update = process_account_update(&payload(&data(1, 0)), &mut stats, 6000).unwrap().unwrap();
    assert_eq!(update.number, 2);
    assert_eq!(update.fee_percent, Binary64::Finite { mantissa: 0, exponent: 0 });
    assert_eq!(stats, StreamStats { updates: 2, last_update: 6000 });
}

#[test]
fn the_count_starts_over() {
    let mut stats = StreamStats { updates: u64::MAX, last_update: 0 };
    let update = apply_account_data(&data(1, 4), &mut stats, 9).unwrap();
    assert_eq!(update.number, 0);
    assert_eq!(stats, StreamStats { updates: 0, last_update: 9 });
}

#[test]
fn a_notification_that_is_not_taken_counts_nothing() {
    let mut stats = fresh();
    let r = process_account_update(&AccountPayload::NotBinary, &mut stats, 5000).unwrap();
    assert!(matches!(r, Err(UpdateError::NotBinary)));
    let zstd = AccountPayload::Binary("AAAA".to_string(), AccountEncoding::Base64Zstd);
    let r = process_account_update(&zstd, &mut stats, 5000).unwrap();
    assert!(matches!(r, Err(UpdateError::UnsupportedEncoding(AccountEncoding::Base64Zstd))));
    let garbled = AccountPayload::Binary("****".to_string(), AccountEncoding::Base64);
    let r = process_account_update(&garbled, &mut stats, 5000).unwrap();
    assert!(matches!(r, Err(UpdateError::Decode(DecodeError::InvalidByte(0, b'*')))));
    let r = process_account_update(&payload(&[1, 2, 3]), &mut stats, 5000).unwrap();
    assert!(matches!(r, Err(UpdateError::Unpack(ProgramError::InvalidAccountData))));
    assert_eq!(stats, fresh());
}

#[test]
fn data_that_is_too_long_gives_nothing() {
    let mut stats = fresh();
    let long = vec![1u8; LAYOUT_LEN + 1];
    assert!(process_account_update(&payload(&long), &mut stats, 5000).is_none());
    assert_eq!(stats, fresh());
}

#[test]
fn connecting_can_fail_in_two_ways() {
    assert_eq!(on_connect(ConnectOutcome::Connected), Ok(()));
    assert_eq!(on_connect(ConnectOutcome::TimedOut), Err(StreamError::ConnectionTimeout));
    assert_eq!(on_connect(ConnectOutcome::Refused), Err(StreamError::SubscriptionFailed));
}

#[test]
fn a_stream_reacts_to_events() {
    let stats = StreamStats { updates: 7, last_update: 1_000 };
    assert_eq!(
        stream_step(&stats, StreamEvent::Processed { taken: true }),
        StreamAction::ReportUpdate
    );
    assert_eq!(
        stream_step(&stats, StreamEvent::Processed { taken: false }),
        StreamAction::ReportRejection
    );
    assert_eq!(
        stream_step(&stats, StreamEvent::ReceiverError),
        StreamAction::Fail(StreamError::ReceiverFailed)
    );
    assert_eq!(stream_step(&stats, StreamEvent::Shutdown), StreamAction::Close);
}

#[test]
fn five_minutes_of_silence_are_allowed() {
    let stats = StreamStats { updates: 7, last_update: 1_000 };
    let at = |now: u128| match stream_step(&stats, StreamEvent::Heartbeat { now }) {
        StreamAction::ReportHealth(report) => report,
        other => panic!("{:?}", other),
    };
    assert_eq!(
        at(300_000_001_000),
        HealthReport { updates: 7, idle: 300_000_000_000, stale: false }
    );
    assert_eq!(
        at(300_000_001_001),
        HealthReport { updates: 7, idle: 300_000_000_001, stale: true }
    );
    assert_eq!(at(10), HealthReport { updates: 7, idle: 0, stale: false });
}

#[test]
fn the_tenth_failure_is_final() {
    let mut reconnector = Reconnector::new();
    for _ in 1..MAX_RECONNECT_ATTEMPTS {
        assert_eq!(
            reconnector.on_stream_end(Err(StreamError::ReceiverFailed)),
            ReconnectAction::Retry { delay_secs: 5 }
        );
    }
    assert_eq!(reconnector.attempts(), 9);
    assert_eq!(
        reconnector.on_stream_end(Err(StreamError::ConnectionTimeout)),
        ReconnectAction::GiveUp(StreamError::ConnectionTimeout)
    );
}

#[test]
fn a_good_end_is_final() {
    let mut reconnector = Reconnector::new();
    reconnector.on_stream_end(Err(StreamError::ReceiverFailed));
    assert_eq!(reconnector.on_stream_end(Ok(())), ReconnectAction::Finish);
    assert_eq!(reconnector.attempts(), 1);
}

#[test]
fn reports_depend_on_the_level() {
    let account = Pubkey { bytes: [9; 32] };
    let p = pool(1, 4);
    let (metrics, detail) = log_pool_metrics(&p, &account, 77, 1234, false, true);
    assert!(metrics.is_none() && detail.is_none());
    let (metrics, detail) = log_pool_metrics(&p, &account, 77, 1234, true, false);
    assert!(detail.is_none());
    let metrics = metrics.unwrap();
    assert_eq!(metrics.timestamp, 1234);
    assert_eq!(metrics.account, from_Pubkey(account));
    assert_eq!(metrics.slot, 77);
    assert_eq!(metrics.mint_a, from_Pubkey(p.mint_a));
    assert_eq!(metrics.mint_b, from_Pubkey(p.mint_b));
    assert_eq!(metrics.token_vault_a, from_Pubkey(p.token_account_a));
    assert_eq!(metrics.token_vault_b, from_Pubkey(p.token_account_b));
    assert_eq!(metrics.fee_percent.to_u64(), 25);
    assert_eq!((metrics.fee_num, metrics.fee_denom), (1, 4));
    assert_eq!(metrics.owner_fee_num, p.owner_trade_fee_numerator);
    assert_eq!(metrics.owner_fee_denom, p.owner_trade_fee_denominator);
    assert_eq!(metrics.host_fee_num, p.host_fee_numerator);
    assert_eq!(metrics.host_fee_denom, p.host_fee_denominator);
    assert!(metrics.initialized);
    assert_eq!(metrics.version, 0);
    assert_eq!(metrics.curve_type, p.curve_type);
    let (_, detail) = log_pool_metrics(&p, &account, 77, 1234, true, true);
    let detail = detail.unwrap();
    assert_eq!(detail.pool_token, from_Pubkey(p.token_pool));
    assert_eq!(detail.fee_account, from_Pubkey(p.fee_account));
    assert_eq!(detail.bump_seed, 2);
    assert_eq!(detail.owner_withdraw_fee_num, p.owner_withdraw_fee_numerator);
    assert_eq!(detail.owner_withdraw_fee_denom, p.owner_withdraw_fee_denominator);
    assert_eq!(detail.curve_params, p.curve_parameters[..8].to_vec());
}

#[test]
fn the_record_for_machines() {
    let account = Pubkey { bytes: [9; 32] };
    let p = pool(1, 4);
    assert!(log_pool_metrics_json(&p, &account, 77, 1234, false).is_none());
    let record = log_pool_metrics_json(&p, &account, 77, 1234, true).unwrap();
    assert_eq!(record.pool_token, from_Pubkey(p.token_pool));
    assert_eq!(record.fee_account, from_Pubkey(p.fee_account));
    assert_eq!(record.trade_fee_rate_percent.to_u64(), 25);
    assert_eq!(record.bump_seed, 2);
    assert_eq!(record.slot, 77);
}

#[test]
fn limited_reports_are_spaced() {
    let mut limiter = RateLimiter::new();
    let one = Pubkey { bytes: [1; 32] };
    let two = Pubkey { bytes: [2; 32] };
    let p = pool(1, 4);
    let mut ask = |account: &Pubkey, now: u64| {
        match limiter.log_pool_metrics_rate_limited(&p, account, 5, now, true) {
            LimitedReport::Made(report) => {
                assert_eq!(report.timestamp, now);
                assert_eq!(report.account, from_Pubkey(*account));
                assert_eq!(report.last_log_interval, LOG_RATE_LIMIT_SECONDS);
                "made"
            }
            LimitedReport::Withheld => "withheld",
            LimitedReport::ClockWentBack => "back",
        }
    };
    assert_eq!(ask(&one, 100), "made");
    assert_eq!(ask(&one, 105), "withheld");
    assert_eq!(ask(&two, 105), "made");
    assert_eq!(ask(&one, 109), "withheld");
    assert_eq!(ask(&one, 110), "made");
    assert_eq!(ask(&one, 119), "withheld");
    assert_eq!(ask(&one, 90), "back");
    assert_eq!(ask(&one, 120), "made");
}

#[test]
fn disabled_reports_leave_no_trace() {
    let mut limiter = RateLimiter::new();
    let account = Pubkey { bytes: [1; 32] };
    let p = pool(1, 4);
    let r = limiter.log_pool_metrics_rate_limited(&p, &account, 5, 100, false);
    assert!(matches!(r, LimitedReport::Withheld));
    assert_eq!(limiter.last_time(&from_Pubkey(account)), None);
    assert!(limiter.grant("x", 100));
    assert!(!limiter.grant("x", 104));
    assert_eq!(limiter.last_time("x"), Some(100));
}

#[test]
fn only_updates_are_counted_in_a_row() {
    let mut stats = fresh();
    let row = vec![
        (payload(&data(1, 4)), 2000u128),
        (AccountPayload::NotBinary, 3000),
        (payload(&data(1, 2)), 4000),
        (payload(&[0; 10]), 5000),
        (payload(&vec![0u8; LAYOUT_LEN + 1]), 6000),
    ];
    for (arrived, now) in row {
        let _ = process_account_update(&arrived, &mut stats, now);
    }
    assert_eq!(stats, StreamStats { updates: 2, last_update: 4000 });
}

#[test]
fn a_stream_starts_without_updates() {
    assert_eq!(StreamStats::new(1000), StreamStats { updates: 0, last_update: 1000 });
}

#[test]
fn a_fee_of_the_whole_is_a_hundred_percent() {
    let mut stats = fresh();
    for n in vec![1u64, 3, 10000, u64::MAX] {
        let whole = apply_account_data(&data(n, n), &mut stats, 1).unwrap().fee_percent;
        assert_eq!(whole.to_u64(), 100);
        let less = apply_account_data(&data(n - 1, n), &mut stats, 1).unwrap().fee_percent;
        assert!(less.to_u64() <= 100);
    }
}
