use scru128_check::codec::encode;
use scru128_check::codec::Identifier;
use scru128_check::driver::Session;
use scru128_check::validate::validate;
use scru128_check::validate::ValidationOutcome;

fn make_token(ts: u64, hi: u32, lo: u32, entropy: u32) -> Vec<u8> {
    let v = ((ts as u128) << 80) | ((hi as u128) << 56) | ((lo as u128) << 32) | entropy as u128;
    encode(v)
}

#[test]
fn clean_stream_processes_all() {
    let mut session = Session::new();
    let n = 5;
    for i in 0..n {
        let token = make_token(1700000000000 + i, 0, i as u32 + 1, 0x55aa55aa);
        let (outcome, _) = session.process_line(&token);
        assert_eq!(outcome, ValidationOutcome::Accepted);
    }
    assert_eq!(session.status.n_processed, 5);
    assert_eq!(session.status.n_errors, 0);
    assert!(session.finished_ok());
}

#[test]
fn one_out_of_order_record() {
    let mut session = Session::new();
    let good_a = make_token(1700000000000, 0, 10, 1);
    let good_b = make_token(1700000000001, 0, 11, 2);
    // Same integer value as good_b: not strictly increasing, so rejected.
    let stale = make_token(1700000000001, 0, 11, 2);
    let good_c = make_token(1700000000002, 0, 12, 3);
    assert_eq!(session.process_line(&good_a).0, ValidationOutcome::Accepted);
    assert_eq!(session.process_line(&good_b).0, ValidationOutcome::Accepted);
    assert_eq!(
        session.process_line(&stale).0,
        ValidationOutcome::StringOrderViolation
    );
    assert_eq!(session.process_line(&good_c).0, ValidationOutcome::Accepted);
    // The stale record decoded, so it counts as processed and as an error.
    assert_eq!(session.status.n_processed, 4);
    assert_eq!(session.status.n_errors, 1);
    assert!(!session.finished_ok());
}

#[test]
fn baseline_stays_at_last_accepted() {
    let mut session = Session::new();
    let accepted = make_token(1700000000005, 0, 10, 9);
    let rejected = make_token(1700000000001, 0, 10, 9);
    let between = make_token(1700000000003, 0, 10, 9);
    let after = make_token(1700000000007, 0, 10, 9);
    assert_eq!(session.process_line(&accepted).0, ValidationOutcome::Accepted);
    assert_eq!(
        session.process_line(&rejected).0,
        ValidationOutcome::StringOrderViolation
    );
    // `between` tops the rejected record but not the accepted baseline: it
    // must be rejected too, which shows the baseline did not move.
    assert_eq!(
        session.process_line(&between).0,
        ValidationOutcome::StringOrderViolation
    );
    assert_eq!(session.process_line(&after).0, ValidationOutcome::Accepted);
    assert_eq!(session.status.n_processed, 4);
    assert_eq!(session.status.n_errors, 2);
}

#[test]
fn malformed_line_skips_validation() {
    let mut session = Session::new();
    let (outcome, _) = session.process_line(b"definitely-not-a-token!!!");
    assert_eq!(outcome, ValidationOutcome::MalformedToken);
    assert_eq!(session.status.n_processed, 0);
    assert_eq!(session.status.n_errors, 1);
    // A later well-formed record is still accepted against the unmoved
    // zero baseline.
    let token = make_token(1700000000000, 0, 1, 0);
    assert_eq!(session.process_line(&token).0, ValidationOutcome::Accepted);
    assert_eq!(session.status.n_processed, 1);
    assert_eq!(session.status.n_errors, 1);
}

#[test]
fn zero_valued_token_fails_integer_order() {
    let mut session = Session::new();
    let token = encode(0);
    // The all-zero token is well formed but not above the zero baseline.
    let (outcome, _) = session.process_line(&token);
    assert_eq!(outcome, ValidationOutcome::IntegerOrderViolation);
    assert_eq!(session.status.n_processed, 1);
    assert_eq!(session.status.n_errors, 1);
}

#[test]
fn counter_lo_violation_within_same_timestamp() {
    let mut session = Session::new();
    let a = make_token(1700000000000, 5, 100, 1);
    // Same timestamp, same counters, larger entropy: text and integer
    // order pass, the low counter check fails.
    let b = make_token(1700000000000, 5, 100, 2);
    assert_eq!(session.process_line(&a).0, ValidationOutcome::Accepted);
    assert_eq!(
        session.process_line(&b).0,
        ValidationOutcome::CounterLoViolation
    );
}

#[test]
fn cross_checks_catch_inconsistent_fields() {
    // A decoder defect could report fields that disagree with the textual
    // and integer forms; the tiered checks exist to catch exactly that.
    // Build such inconsistent identifiers by hand.
    let prev = Identifier {
        str_bytes: encode(100),
        int_value: 100,
        timestamp: 50,
        counter_hi: 9,
        counter_lo: 1,
        entropy: 0,
    };
    let clock_back = Identifier {
        str_bytes: encode(200),
        int_value: 200,
        timestamp: 49,
        counter_hi: 9,
        counter_lo: 2,
        entropy: 0,
    };
    assert_eq!(
        validate(&prev, &clock_back),
        ValidationOutcome::ClockRegression
    );
    let hi_back = Identifier {
        str_bytes: encode(200),
        int_value: 200,
        timestamp: 50,
        counter_hi: 8,
        counter_lo: 2,
        entropy: 0,
    };
    assert_eq!(
        validate(&prev, &hi_back),
        ValidationOutcome::CounterHiViolation
    );
    let int_back = Identifier {
        str_bytes: encode(200),
        int_value: 99,
        timestamp: 50,
        counter_hi: 9,
        counter_lo: 2,
        entropy: 0,
    };
    assert_eq!(
        validate(&prev, &int_back),
        ValidationOutcome::IntegerOrderViolation
    );
}

#[test]
fn steady_counter_records_no_reset() {
    let mut session = Session::new();
    // First accepted record starts the low-counter baseline (its counter
    // does not extend the zero baseline by one, so it resets once with no
    // interval sample).
    let mut lo = 5u32;
    let ts = 1700000000000u64;
    let first = make_token(ts, 0, lo, 7);
    assert_eq!(session.process_line(&first).0, ValidationOutcome::Accepted);
    // Steady progression: increment by exactly one each time.
    for i in 1..=4u32 {
        let token = make_token(ts, 0, lo + i, 7);
        assert_eq!(session.process_line(&token).0, ValidationOutcome::Accepted);
    }
    lo += 4;
    assert_eq!(session.status.n_counter_lo_update, 0);
    assert_eq!(session.status.sum_intervals_counter_lo_update, 0);
    // One skipped value later: exactly one reset and one interval sample.
    let jump = make_token(ts + 1000, 0, lo + 2, 7);
    assert_eq!(session.process_line(&jump).0, ValidationOutcome::Accepted);
    assert_eq!(session.status.n_counter_lo_update, 1);
    assert_eq!(session.status.sum_intervals_counter_lo_update, 1000);
}

#[test]
fn wraparound_is_a_carry_not_a_reset() {
    let mut session = Session::new();
    let ts = 1700000000000u64;
    let a = make_token(ts, 7, 0xff_ffff, 1);
    assert_eq!(session.process_line(&a).0, ValidationOutcome::Accepted);
    let resets_before = session.status.n_counter_lo_update;
    // Low counter wraps to zero while the high counter advances by one
    // within the same timestamp: the defined carry event.
    let b = make_token(ts, 8, 0, 1);
    assert_eq!(session.process_line(&b).0, ValidationOutcome::Accepted);
    assert_eq!(session.status.n_counter_lo_update, resets_before);
    assert_eq!(session.status.n_counter_hi_increment, 1);
}

#[test]
fn entropy_bit_census_counts_each_record() {
    let mut session = Session::new();
    // Entropy with only the least significant bit set.
    let a = make_token(1700000000000, 0, 1, 0x0000_0001);
    // Entropy with only the most significant bit set.
    let b = make_token(1700000000001, 0, 2, 0x8000_0000);
    assert_eq!(session.process_line(&a).0, ValidationOutcome::Accepted);
    assert_eq!(session.process_line(&b).0, ValidationOutcome::Accepted);
    let ones = &session.status.n_ones_by_bit_entropy;
    assert_eq!(ones.len(), 32);
    assert_eq!(ones[0], 1, "the most significant slot saw one set bit");
    assert_eq!(ones[31], 1, "the least significant slot saw one set bit");
    assert_eq!(ones[1..31].iter().sum::<usize>(), 0);
}

#[test]
fn periodic_report_skips_warmup_interval() {
    let mut session = Session::new();
    let first = make_token(20000, 0, 1, 0);
    let (outcome, due) = session.process_line(&first);
    assert_eq!(outcome, ValidationOutcome::Accepted);
    assert!(!due, "the very first interval only warms up the statistics");
    let second = make_token(25000, 0, 2, 0);
    assert!(!session.process_line(&second).1);
    let third = make_token(31000, 0, 3, 0);
    assert!(session.process_line(&third).1, "a full interval has passed");
}
