//! Rendering of the statistics report as plain text.
//!
//! All quotients are rendered in fixed-point decimal computed with exact
//! integer arithmetic; an undefined quotient (zero denominator) renders as
//! a marker instead of a number.

use vstd::prelude::*;
use vstd::string::*;

verus! {

/// Decimal digit character for a value below ten.
pub open spec fn digit_char(d: int) -> char {
    if d == 0 {
        '0'
    } else if d == 1 {
        '1'
    } else if d == 2 {
        '2'
    } else if d == 3 {
        '3'
    } else if d == 4 {
        '4'
    } else if d == 5 {
        '5'
    } else if d == 6 {
        '6'
    } else if d == 7 {
        '7'
    } else if d == 8 {
        '8'
    } else {
        '9'
    }
}

/// Decimal text of a non-negative integer, no leading zeros.
pub open spec fn dec_chars(n: int) -> Seq<char>
    decreases n,
{
    if n < 10 {
        seq![digit_char(n)]
    } else {
        dec_chars(n / 10) + seq![digit_char(n % 10)]
    }
}

/// `a / b` rounded to the nearest integer, halves away from zero.
pub open spec fn round_div(a: int, b: int) -> int {
    (2 * a + b) / (2 * b)
}

/// Text of a quantity counted in thousandths: integer part, a point, and
/// exactly three fraction digits.
pub open spec fn fixed3_chars(scaled: int) -> Seq<char> {
    dec_chars(scaled / 1000) + "."@ + seq![
        digit_char((scaled / 100) % 10),
        digit_char((scaled / 10) % 10),
        digit_char(scaled % 10),
    ]
}

/// Text of a quantity counted in tenths: integer part, a point, and one
/// fraction digit.
pub open spec fn fixed1_chars(scaled: int) -> Seq<char> {
    dec_chars(scaled / 10) + "."@ + seq![digit_char(scaled % 10)]
}

/// Mean of `num` over `den` samples in three decimals; the marker text
/// when no sample exists.
pub open spec fn ratio3_chars(num: int, den: int) -> Seq<char> {
    if den == 0 {
        if num == 0 {
            "NaN"@
        } else {
            "inf"@
        }
    } else {
        fixed3_chars(round_div(num * 1000, den))
    }
}

/// `n` spaces; empty when `n` is not positive.
pub open spec fn spaces(n: int) -> Seq<char> {
    if n >= 0 {
        Seq::new(n as nat, |i: int| ' ')
    } else {
        Seq::empty()
    }
}

/// Right-aligned text in a column of width `w`.
pub open spec fn pad_left(s: Seq<char>, w: int) -> Seq<char> {
    spaces(w - s.len()) + s
}

/// Left-aligned text in a column of width `w`.
pub open spec fn pad_right(s: Seq<char>, w: int) -> Seq<char> {
    s + spaces(w - s.len())
}

/// One report line: the label column, the expected column, the observed
/// column, and the line break.
pub open spec fn row_chars(label: Seq<char>, expected: Seq<char>, actual: Seq<char>) -> Seq<char> {
    pad_right(label, 52) + " "@ + pad_left(expected, 8) + " "@ + pad_left(actual, 12) + "\n"@
}

/// Appends one decimal digit.
fn append_digit(s: &mut String, d: u8)
    requires
        d < 10,
    ensures
        final(s)@ == old(s)@ + seq![digit_char(d as int)],
{
    if d == 0 {
        proof {
            reveal_strlit("0");
        }
        s.append("0");
        proof {
            assert(old(s)@ + "0"@ =~= old(s)@ + seq![digit_char(0)]);
        }
    } else if d == 1 {
        proof {
            reveal_strlit("1");
        }
        s.append("1");
        proof {
            assert(old(s)@ + "1"@ =~= old(s)@ + seq![digit_char(1)]);
        }
    } else if d == 2 {
        proof {
            reveal_strlit("2");
        }
        s.append("2");
        proof {
            assert(old(s)@ + "2"@ =~= old(s)@ + seq![digit_char(2)]);
        }
    } else if d == 3 {
        proof {
            reveal_strlit("3");
        }
        s.append("3");
        proof {
            assert(old(s)@ + "3"@ =~= old(s)@ + seq![digit_char(3)]);
        }
    } else if d == 4 {
        proof {
            reveal_strlit("4");
        }
        s.append("4");
        proof {
            assert(old(s)@ + "4"@ =~= old(s)@ + seq![digit_char(4)]);
        }
    } else if d == 5 {
        proof {
            reveal_strlit("5");
        }
        s.append("5");
        proof {
            assert(old(s)@ + "5"@ =~= old(s)@ + seq![digit_char(5)]);
        }
    } else if d == 6 {
        proof {
            reveal_strlit("6");
        }
        s.append("6");
        proof {
            assert(old(s)@ + "6"@ =~= old(s)@ + seq![digit_char(6)]);
        }
    } else if d == 7 {
        proof {
            reveal_strlit("7");
        }
        s.append("7");
        proof {
            assert(old(s)@ + "7"@ =~= old(s)@ + seq![digit_char(7)]);
        }
    } else if d == 8 {
        proof {
            reveal_strlit("8");
        }
        s.append("8");
        proof {
            assert(old(s)@ + "8"@ =~= old(s)@ + seq![digit_char(8)]);
        }
    } else {
        proof {
            reveal_strlit("9");
        }
        s.append("9");
        proof {
            assert(old(s)@ + "9"@ =~= old(s)@ + seq![digit_char(9)]);
        }
    }
}

/// Appends the decimal text of `n`.
fn append_dec(s: &mut String, n: u128)
    ensures
        final(s)@ == old(s)@ + dec_chars(n as int),
    decreases n,
{
    if n < 10 {
        append_digit(s, n as u8);
    } else {
        append_dec(s, n / 10);
        append_digit(s, (n % 10) as u8);
        proof {
            assert(old(s)@ + dec_chars(n as int / 10) + seq![digit_char(n as int % 10)] =~= old(
                s,
            )@ + dec_chars(n as int));
        }
    }
}

/// Appends the fixed-point text of a count of thousandths.
fn append_fixed3(s: &mut String, scaled: u128)
    ensures
        final(s)@ == old(s)@ + fixed3_chars(scaled as int),
{
    append_dec(s, scaled / 1000);
    s.append(".");
    append_digit(s, ((scaled / 100) % 10) as u8);
    append_digit(s, ((scaled / 10) % 10) as u8);
    append_digit(s, (scaled % 10) as u8);
    proof {
        assert(final(s)@ =~= old(s)@ + fixed3_chars(scaled as int));
    }
}

/// Appends the fixed-point text of a count of tenths.
fn append_fixed1(s: &mut String, scaled: u128)
    ensures
        final(s)@ == old(s)@ + fixed1_chars(scaled as int),
{
    append_dec(s, scaled / 10);
    s.append(".");
    append_digit(s, (scaled % 10) as u8);
    proof {
        assert(final(s)@ =~= old(s)@ + fixed1_chars(scaled as int));
    }
}

/// Nearest-integer division, halves away from zero.
fn div_round(a: u128, b: u128) -> (r: u128)
    requires
        1 <= b,
        a < 0x1_0000_0000_0000_0000_0000_0000u128,
        b < 0x1_0000_0000_0000_0000_0000_0000u128,
    ensures
        r as int == round_div(a as int, b as int),
{
    (2 * a + b) / (2 * b)
}

/// Appends `n` spaces.
fn append_spaces(s: &mut String, n: usize)
    ensures
        final(s)@ == old(s)@ + spaces(n as int),
{
    let mut i: usize = 0;
    while i < n
        invariant
            0 <= i <= n,
            s@ == old(s)@ + spaces(i as int),
        decreases n - i,
    {
        proof {
            reveal_strlit(" ");
        }
        s.append(" ");
        proof {
            assert(old(s)@ + spaces(i as int) + " "@ =~= old(s)@ + spaces(i + 1));
        }
        i = i + 1;
    }
    proof {
        assert(old(s)@ + spaces(0) =~= old(s)@);
    }
}

/// Appends `f` right-aligned in a column of width `w`.
fn append_padded_left(out: &mut String, f: &str, w: usize)
    ensures
        final(out)@ == old(out)@ + pad_left(f@, w as int),
{
    let l = f.unicode_len();
    if l < w {
        append_spaces(out, w - l);
    }
    out.append(f);
    proof {
        assert(final(out)@ =~= old(out)@ + pad_left(f@, w as int));
    }
}

/// Appends `f` left-aligned in a column of width `w`.
fn append_padded_right(out: &mut String, f: &str, w: usize)
    ensures
        final(out)@ == old(out)@ + pad_right(f@, w as int),
{
    out.append(f);
    let l = f.unicode_len();
    if l < w {
        append_spaces(out, w - l);
    }
    proof {
        assert(final(out)@ =~= old(out)@ + pad_right(f@, w as int));
    }
}

/// Ratio of a count over `n` samples, in thousandths, rounded to nearest.
pub open spec fn scaled_ratio(c: int, n: int) -> int {
    round_div(c * 1000, n)
}

/// Smallest per-slot ratio in thousandths; 1000 over an empty histogram.
pub open spec fn summary_min(counts: Seq<int>, n: int) -> int
    decreases counts.len(),
{
    if counts.len() == 0 {
        1000
    } else {
        let rest = summary_min(counts.drop_last(), n);
        let p = scaled_ratio(counts.last(), n);
        if p < rest {
            p
        } else {
            rest
        }
    }
}

/// Largest per-slot ratio in thousandths; 0 over an empty histogram.
pub open spec fn summary_max(counts: Seq<int>, n: int) -> int
    decreases counts.len(),
{
    if counts.len() == 0 {
        0
    } else {
        let rest = summary_max(counts.drop_last(), n);
        let p = scaled_ratio(counts.last(), n);
        if p > rest {
            p
        } else {
            rest
        }
    }
}

/// Text of the smallest and largest set-bit ratio over the slots of a
/// histogram, or the marker when there is no sample to divide by.
pub open spec fn summary_chars(counts: Seq<int>, n: int) -> Seq<char> {
    if n == 0 {
        "NaN"@ + "-"@ + "NaN"@
    } else {
        fixed3_chars(summary_min(counts, n)) + "-"@ + fixed3_chars(summary_max(counts, n))
    }
}

/// Appends one full report line.
fn append_row(out: &mut String, label: &str, expected: &str, actual: &str)
    ensures
        final(out)@ == old(out)@ + row_chars(label@, expected@, actual@),
{
    append_padded_right(out, label, 52);
    out.append(" ");
    append_padded_left(out, expected, 8);
    out.append(" ");
    append_padded_left(out, actual, 12);
    out.append("\n");
    proof {
        assert(final(out)@ =~= old(out)@ + row_chars(label@, expected@, actual@));
    }
}

/// Reports the minimum and maximum observed set-bit ratio across the bit
/// positions of a field, as `min-max` in three decimals each.
pub fn summarize_n_set_bits_by_pos(counts: &[usize], n_samples: usize) -> (r: String)
    ensures
        r@ == summary_chars(crate::stats::to_ints(counts@), n_samples as int),
{
    let mut r = String::new();
    if n_samples == 0 {
        r.append("NaN");
        r.append("-");
        r.append("NaN");
        proof {
            assert(r@ =~= summary_chars(crate::stats::to_ints(counts@), 0));
        }
        return r;
    }
    let mut mn: u128 = 1000;
    let mut mx: u128 = 0;
    let mut i: usize = 0;
    while i < counts.len()
        invariant
            0 <= i <= counts@.len(),
            1 <= n_samples,
            mn as int == summary_min(crate::stats::to_ints(counts@).take(i as int),
                n_samples as int),
            mx as int == summary_max(crate::stats::to_ints(counts@).take(i as int),
                n_samples as int),
        decreases counts@.len() - i,
    {
        let c = counts[i];
        let p = div_round((c as u128) * 1000, n_samples as u128);
        proof {
            let ints = crate::stats::to_ints(counts@);
            assert(ints.take(i + 1).drop_last() =~= ints.take(i as int));
            assert(ints.take(i + 1).last() == ints[i as int]);
            assert(ints[i as int] == counts@[i as int] as int);
        }
        if p < mn {
            mn = p;
        }
        if p > mx {
            mx = p;
        }
        i = i + 1;
    }
    proof {
        let ints = crate::stats::to_ints(counts@);
        assert(ints.take(counts@.len() as int) =~= ints);
        assert(Seq::<int>::empty() =~= ints.take(0));
    }
    append_fixed3(&mut r, mn);
    r.append("-");
    append_fixed3(&mut r, mx);
    proof {
        assert(r@ =~= summary_chars(crate::stats::to_ints(counts@), n_samples as int));
    }
    r
}

/// Mean text of `num` over `den`, with the marker when `den` is zero.
fn ratio3_string(num: u128, den: u128) -> (r: String)
    requires
        num <= u64::MAX,
        den <= u64::MAX,
    ensures
        r@ == ratio3_chars(num as int, den as int),
{
    let mut r = String::new();
    if den == 0 {
        if num == 0 {
            r.append("NaN");
        } else {
            r.append("inf");
        }
    } else {
        append_fixed3(&mut r, div_round(num * 1000, den));
    }
    proof {
        assert(r@ =~= ratio3_chars(num as int, den as int));
    }
    r
}

/// Observed-column text for the gap between the wall clock and the last
/// accepted timestamp; the marker when the clock was unavailable.
pub open spec fn time_delta_chars(now_ms: Option<u64>, ts_last: int) -> Seq<char> {
    match now_ms {
        Option::None => "NaN"@,
        Option::Some(now) => if now >= ts_last {
            fixed3_chars(now - ts_last)
        } else {
            "-"@ + fixed3_chars(ts_last - now)
        },
    }
}

/// The full report: a leading blank line, the column header, and one line
/// per statistic, each pairing the expected value with the observed one.
pub open spec fn report_chars(st: crate::stats::StatusView, now_ms: Option<u64>) -> Seq<char> {
    let te = st.ts_last - st.ts_first;
    "\n"@ + row_chars("STAT"@, "EXPECTED"@, "ACTUAL"@) + row_chars(
        "Seconds from first input ID to last (sec)"@,
        "NA"@,
        fixed1_chars(round_div(te, 100)),
    ) + row_chars("Number of valid IDs processed"@, "NA"@, dec_chars(st.n_processed)) + row_chars(
        "Number of invalid IDs skipped"@,
        "0"@,
        dec_chars(st.n_errors),
    ) + row_chars("Mean number of IDs per millisecond"@, "NA"@, ratio3_chars(st.n_processed, te))
        + row_chars(
        "Current time less timestamp of last ID (sec)"@,
        "~0"@,
        time_delta_chars(now_ms, st.ts_last),
    ) + row_chars("Number of counter_hi increments"@, "Few"@, dec_chars(st.n_counter_hi_increment))
        + row_chars(
        "Mean interval of counter_hi updates (msec)"@,
        "~1000"@,
        ratio3_chars(st.sum_intervals_counter_hi_update, st.n_counter_hi_update),
    ) + row_chars(
        "Mean interval of counter_lo updates (msec)"@,
        "~1"@,
        ratio3_chars(st.sum_intervals_counter_lo_update, st.n_counter_lo_update),
    ) + row_chars(
        "1/0 ratio by bit of counter_hi at reset (min-max)"@,
        "~0.500"@,
        summary_chars(st.n_ones_by_bit_counter_hi, st.n_counter_hi_update + 1),
    ) + row_chars(
        "1/0 ratio by bit of counter_lo at reset (min-max)"@,
        "~0.500"@,
        summary_chars(st.n_ones_by_bit_counter_lo, st.n_counter_lo_update + 1),
    ) + row_chars(
        "1/0 ratio by bit of entropy (min-max)"@,
        "~0.500"@,
        summary_chars(st.n_ones_by_bit_entropy, st.n_processed),
    )
}

impl crate::stats::Status {
    /// Renders the current snapshot. `now_ms` is the wall clock in
    /// milliseconds since the epoch, or nothing when the clock failed;
    /// a failed clock degrades only its own report line.
    pub fn render(&self, now_ms: Option<u64>) -> (r: String)
        requires
            self@.wf(),
            self@.n_processed < usize::MAX,
        ensures
            r@ == report_chars(self@, now_ms),
    {
        let te: u64 = self.ts_last - self.ts_first;
        let mut out = String::new();
        out.append("\n");
        append_row(&mut out, "STAT", "EXPECTED", "ACTUAL");

        let mut elapsed = String::new();
        append_fixed1(&mut elapsed, div_round(te as u128, 100));
        append_row(&mut out, "Seconds from first input ID to last (sec)", "NA",
            elapsed.as_str());

        let mut processed = String::new();
        append_dec(&mut processed, self.n_processed as u128);
        append_row(&mut out, "Number of valid IDs processed", "NA", processed.as_str());

        let mut errors = String::new();
        append_dec(&mut errors, self.n_errors as u128);
        append_row(&mut out, "Number of invalid IDs skipped", "0", errors.as_str());

        let rate = ratio3_string(self.n_processed as u128, te as u128);
        append_row(&mut out, "Mean number of IDs per millisecond", "NA", rate.as_str());

        let delta = match now_ms {
            Option::None => String::from_str("NaN"),
            Option::Some(now) => {
                if now >= self.ts_last {
                    let mut d = String::new();
                    append_fixed3(&mut d, (now - self.ts_last) as u128);
                    d
                } else {
                    let mut d = String::from_str("-");
                    append_fixed3(&mut d, (self.ts_last - now) as u128);
                    d
                }
            },
        };
        proof {
            assert(delta@ == time_delta_chars(now_ms, self@.ts_last));
        }
        append_row(&mut out, "Current time less timestamp of last ID (sec)", "~0",
            delta.as_str());

        let mut increments = String::new();
        append_dec(&mut increments, self.n_counter_hi_increment as u128);
        append_row(&mut out, "Number of counter_hi increments", "Few", increments.as_str());

        let mean_hi = ratio3_string(
            self.sum_intervals_counter_hi_update as u128,
            self.n_counter_hi_update as u128,
        );
        append_row(&mut out, "Mean interval of counter_hi updates (msec)", "~1000",
            mean_hi.as_str());

        let mean_lo = ratio3_string(
            self.sum_intervals_counter_lo_update as u128,
            self.n_counter_lo_update as u128,
        );
        append_row(&mut out, "Mean interval of counter_lo updates (msec)", "~1",
            mean_lo.as_str());

        let ratio_hi = summarize_n_set_bits_by_pos(
            self.n_ones_by_bit_counter_hi.as_slice(),
            self.n_counter_hi_update + 1,
        );
        append_row(&mut out, "1/0 ratio by bit of counter_hi at reset (min-max)", "~0.500",
            ratio_hi.as_str());

        let ratio_lo = summarize_n_set_bits_by_pos(
            self.n_ones_by_bit_counter_lo.as_slice(),
            self.n_counter_lo_update + 1,
        );
        append_row(&mut out, "1/0 ratio by bit of counter_lo at reset (min-max)", "~0.500",
            ratio_lo.as_str());

        let ratio_entropy = summarize_n_set_bits_by_pos(
            self.n_ones_by_bit_entropy.as_slice(),
            self.n_processed,
        );
        append_row(&mut out, "1/0 ratio by bit of entropy (min-max)", "~0.500",
            ratio_entropy.as_str());

        proof {
            assert(out@ =~= report_chars(self@, now_ms));
        }
        out
    }
}

/// A tier with no observed change-events renders the defined marker in its
/// mean-interval column, never a number: the report stays well defined on
/// streams shorter than one reset cycle.
pub proof fn lemma_no_events_render_marker(st: crate::stats::StatusView)
    requires
        st.wf(),
    ensures
        st.n_counter_hi_update == 0 ==> ratio3_chars(
            st.sum_intervals_counter_hi_update,
            st.n_counter_hi_update,
        ) == "NaN"@,
        st.n_counter_lo_update == 0 ==> ratio3_chars(
            st.sum_intervals_counter_lo_update,
            st.n_counter_lo_update,
        ) == "NaN"@,
{
}

} // verus!
