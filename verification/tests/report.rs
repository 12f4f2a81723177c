use scru128_check::codec::encode;
use scru128_check::driver::Session;
use scru128_check::report::summarize_n_set_bits_by_pos;
use scru128_check::stats::Status;
use scru128_check::validate::ValidationOutcome;

fn make_token(ts: u64, hi: u32, lo: u32, entropy: u32) -> Vec<u8> {
    let v = ((ts as u128) << 80) | ((hi as u128) << 56) | ((lo as u128) << 32) | entropy as u128;
    encode(v)
}

#[test]
fn summarize_exact_ratios() {
    assert_eq!(summarize_n_set_bits_by_pos(&[3, 1], 4), "0.250-0.750");
    assert_eq!(summarize_n_set_bits_by_pos(&[0, 0], 2), "0.000-0.000");
    assert_eq!(summarize_n_set_bits_by_pos(&[5], 5), "1.000-1.000");
    assert_eq!(summarize_n_set_bits_by_pos(&[1, 2, 3], 6), "0.167-0.500");
}

#[test]
fn summarize_empty_histogram() {
    // No slots at all: the float analogue leaves min above max.
    assert_eq!(summarize_n_set_bits_by_pos(&[], 3), "1.000-0.000");
}

#[test]
fn summarize_without_samples_renders_marker() {
    assert_eq!(summarize_n_set_bits_by_pos(&[1, 2], 0), "NaN-NaN");
    assert_eq!(summarize_n_set_bits_by_pos(&[], 0), "NaN-NaN");
}

#[test]
fn report_with_zero_change_events_renders_marker() {
    let mut session = Session::new();
    let token = make_token(1700000000000, 0, 1, 0);
    assert_eq!(session.process_line(&token).0, ValidationOutcome::Accepted);
    // One record: no counter update event exists yet in either tier.
    assert_eq!(session.status.n_counter_hi_update, 0);
    assert_eq!(session.status.n_counter_lo_update, 0);
    let report = session.status.render(Some(1700000000500));
    let hi_line = report
        .lines()
        .find(|l| l.starts_with("Mean interval of counter_hi updates (msec)"))
        .expect("the high-tier line is always rendered");
    assert!(hi_line.ends_with("NaN"), "no-sample means render the marker");
    let lo_line = report
        .lines()
        .find(|l| l.starts_with("Mean interval of counter_lo updates (msec)"))
        .expect("the low-tier line is always rendered");
    assert!(lo_line.ends_with("NaN"), "no-sample means render the marker");
}

#[test]
fn report_without_clock_renders_marker() {
    let mut session = Session::new();
    let token = make_token(1700000000000, 0, 1, 0);
    assert_eq!(session.process_line(&token).0, ValidationOutcome::Accepted);
    let report = session.status.render(None);
    let line = report
        .lines()
        .find(|l| l.starts_with("Current time less timestamp of last ID (sec)"))
        .expect("the clock line is always rendered");
    assert!(line.ends_with("NaN"));
}

#[test]
fn report_layout_matches_column_format() {
    let mut session = Session::new();
    let a = make_token(1700000000000, 0, 1, 0);
    let b = make_token(1700000001500, 0, 2, 0);
    assert_eq!(session.process_line(&a).0, ValidationOutcome::Accepted);
    assert_eq!(session.process_line(&b).0, ValidationOutcome::Accepted);
    let report = session.status.render(None);
    assert!(report.starts_with('\n'), "a blank line precedes the block");
    let lines: Vec<&str> = report.lines().collect();
    assert_eq!(lines.len(), 13);
    assert_eq!(lines[0], "");
    assert_eq!(
        lines[1],
        format!("{:<52} {:>8} {:>12}", "STAT", "EXPECTED", "ACTUAL")
    );
    assert_eq!(
        lines[2],
        format!(
            "{:<52} {:>8} {:>12}",
            "Seconds from first input ID to last (sec)", "NA", "1.5"
        )
    );
    assert_eq!(
        lines[3],
        format!("{:<52} {:>8} {:>12}", "Number of valid IDs processed", "NA", 2)
    );
    assert_eq!(
        lines[4],
        format!("{:<52} {:>8} {:>12}", "Number of invalid IDs skipped", 0, 0)
    );
    assert_eq!(
        lines[5],
        format!(
            "{:<52} {:>8} {:>12}",
            "Mean number of IDs per millisecond", "NA", "0.001"
        )
    );
}

#[test]
fn report_mean_interval_value() {
    let mut session = Session::new();
    let ts = 1700000000000u64;
    // Three low-counter resets: baseline, then two sampled intervals of
    // 400 and 800 milliseconds; the mean is 600.000.
    let tokens = [
        make_token(ts, 0, 100, 0),
        make_token(ts + 400, 0, 200, 0),
        make_token(ts + 1200, 0, 300, 0),
    ];
    for token in &tokens {
        assert_eq!(session.process_line(token).0, ValidationOutcome::Accepted);
    }
    assert_eq!(session.status.n_counter_lo_update, 2);
    assert_eq!(session.status.sum_intervals_counter_lo_update, 1200);
    let report = session.status.render(None);
    let line = report
        .lines()
        .find(|l| l.starts_with("Mean interval of counter_lo updates (msec)"))
        .expect("the low-tier line is always rendered");
    assert!(line.ends_with("600.000"), "line was: {line:?}");
}

#[test]
fn render_on_fresh_status_does_not_crash() {
    let status = Status::new();
    let report = status.render(None);
    assert!(report.contains("STAT"));
    assert!(report.contains("NaN"));
}
