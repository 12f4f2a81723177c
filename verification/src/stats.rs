//! Online statistics over the stream of accepted identifiers.

use vstd::prelude::*;

use crate::codec::{lemma_field_bounds, IdView, Identifier};

verus! {

/// Largest value the timestamp field can carry: it is 48 bits wide.
pub const TS_LIMIT: u64 = 0x1_0000_0000_0000;

/// Wraparound boundary of the 24-bit low counter.
pub const COUNTER_LO_MAX: u32 = 0xff_ffff;

/// Bit `j` (counted from the least significant end) of `n`.
pub open spec fn nth_bit(n: u32, j: u32) -> bool {
    j < 32 && (n >> j) & 1 == 1
}

/// Unsigned counts seen as mathematical integers.
pub open spec fn to_ints(s: Seq<usize>) -> Seq<int> {
    s.map_values(|v: usize| v as int)
}

/// One set-bit census step: slot `i` of the histogram counts bit
/// `len - 1 - i` of the sample, most significant bit first.
pub open spec fn bumped(counts: Seq<int>, n: u32) -> Seq<int> {
    Seq::new(
        counts.len(),
        |i: int|
            if nth_bit(n, (counts.len() - 1 - i) as u32) {
                counts[i] + 1
            } else {
                counts[i]
            },
    )
}

/// Counts the set bits of `n` by bit position into `counts`, most
/// significant position first.
pub fn count_set_bits_by_pos(counts: &mut Vec<usize>, n: u32)
    requires
        old(counts)@.len() <= 32,
        forall|i: int| 0 <= i < old(counts)@.len() ==> old(counts)@[i] < usize::MAX,
    ensures
        to_ints(final(counts)@) == bumped(to_ints(old(counts)@), n),
        final(counts)@.len() == old(counts)@.len(),
{
    let len = counts.len();
    let mut j: usize = 0;
    let mut m: u32 = n;
    proof {
        assert(n >> 0u32 == n) by (bit_vector);
    }
    while j < len
        invariant
            0 <= j <= len,
            len <= 32,
            counts@.len() == len,
            old(counts)@.len() == len,
            forall|i: int| 0 <= i < len ==> old(counts)@[i] < usize::MAX,
            j < 32 ==> m == n >> (j as u32),
            forall|i: int| 0 <= i < len - j ==> counts@[i] == old(counts)@[i],
            forall|i: int|
                len - j <= i < len ==> counts@[i] == to_ints(counts@)[i] && to_ints(counts@)[i]
                    == bumped(to_ints(old(counts)@), n)[i],
        decreases len - j,
    {
        let i = len - 1 - j;
        proof {
            assert(nth_bit(n, j as u32) == (m & 1 == 1));
        }
        if m & 1 == 1 {
            let c = counts[i];
            proof {
                assert(counts@[i as int] == old(counts)@[i as int]);
                assert(old(counts)@[i as int] < usize::MAX);
            }
            counts.set(i, c + 1);
        }
        proof {
            let ju = j as u32;
            let jv = (j + 1) as u32;
            if j + 1 < 32 {
                assert((n >> ju) >> 1 == n >> jv) by (bit_vector)
                    requires
                        ju < 31 && jv == ju + 1,
                ;
            }
        }
        m = m >> 1;
        j = j + 1;
    }
    proof {
        assert(to_ints(counts@) =~= bumped(to_ints(old(counts)@), n));
    }
}

/// Counts strictly below `cap` at the mathematical level are strictly
/// below `cap` at the machine level.
proof fn lemma_counts_have_room(s: Seq<usize>, cap: int)
    requires
        forall|i: int| 0 <= i < to_ints(s).len() ==> #[trigger] to_ints(s)[i] < cap,
    ensures
        forall|i: int| 0 <= i < s.len() ==> s[i] < cap,
{
    assert forall|i: int| 0 <= i < s.len() implies s[i] < cap by {
        assert(to_ints(s)[i] == s[i] as int);
    }
}

/// Mathematical image of the aggregator state.
#[verifier::ext_equal]
pub ghost struct StatusView {
    pub n_processed: int,
    pub n_errors: int,
    pub ts_first: int,
    pub ts_last: int,
    pub n_ones_by_bit_entropy: Seq<int>,
    pub n_counter_lo_update: int,
    pub ts_last_counter_lo_update: int,
    pub sum_intervals_counter_lo_update: int,
    pub n_ones_by_bit_counter_lo: Seq<int>,
    pub n_counter_hi_increment: int,
    pub n_counter_hi_update: int,
    pub ts_last_counter_hi_update: int,
    pub sum_intervals_counter_hi_update: int,
    pub n_ones_by_bit_counter_hi: Seq<int>,
    pub ts_last_stats_print: int,
}

impl StatusView {
    /// Structural bounds that the update discipline maintains. The sums of
    /// inter-update intervals telescope, so they never exceed the last
    /// update timestamp; every event counter is bounded by the number of
    /// records processed.
    pub open spec fn wf(self) -> bool {
        &&& self.n_ones_by_bit_entropy.len() == 32
        &&& self.n_ones_by_bit_counter_lo.len() == 24
        &&& self.n_ones_by_bit_counter_hi.len() == 24
        &&& 0 <= self.n_processed <= usize::MAX
        &&& 0 <= self.n_errors <= usize::MAX
        &&& 0 <= self.ts_first <= self.ts_last < TS_LIMIT
        &&& 0 <= self.ts_last_counter_lo_update < TS_LIMIT
        &&& 0 <= self.ts_last_counter_hi_update < TS_LIMIT
        &&& 0 <= self.ts_last_stats_print < TS_LIMIT
        &&& 0 <= self.sum_intervals_counter_lo_update <= self.ts_last_counter_lo_update
        &&& 0 <= self.sum_intervals_counter_hi_update <= self.ts_last_counter_hi_update
        &&& self.n_counter_lo_update == 0 ==> self.sum_intervals_counter_lo_update == 0
        &&& self.n_counter_hi_update == 0 ==> self.sum_intervals_counter_hi_update == 0
        &&& 0 <= self.n_counter_lo_update <= self.n_processed
        &&& 0 <= self.n_counter_hi_update <= self.n_processed
        &&& 0 <= self.n_counter_hi_increment <= self.n_processed
        &&& forall|i: int|
            0 <= i < 32 ==> 0 <= #[trigger] self.n_ones_by_bit_entropy[i] <= self.n_processed
        &&& forall|i: int|
            0 <= i < 24 ==> 0 <= #[trigger] self.n_ones_by_bit_counter_lo[i] <= self.n_processed
        &&& forall|i: int|
            0 <= i < 24 ==> 0 <= #[trigger] self.n_ones_by_bit_counter_hi[i] <= self.n_processed
    }
}

/// Every event counter and histogram slot lies strictly below `cap`; holds
/// room for one more increment.
pub open spec fn counters_below(st: StatusView, cap: int) -> bool {
    &&& st.n_counter_lo_update < cap
    &&& st.n_counter_hi_update < cap
    &&& st.n_counter_hi_increment < cap
    &&& forall|i: int| 0 <= i < 32 ==> #[trigger] st.n_ones_by_bit_entropy[i] < cap
    &&& forall|i: int| 0 <= i < 24 ==> #[trigger] st.n_ones_by_bit_counter_lo[i] < cap
    &&& forall|i: int| 0 <= i < 24 ==> #[trigger] st.n_ones_by_bit_counter_hi[i] < cap
}

/// The low counter failed to follow its increment-by-one progression and
/// this is not the defined wraparound of the 24-bit field.
pub open spec fn lo_reset_event(prev: IdView, curr: IdView) -> bool {
    curr.counter_lo != prev.counter_lo + 1 && !(curr.counter_lo == 0 && prev.counter_lo
        == COUNTER_LO_MAX)
}

/// The high counter advanced by exactly one through a low-counter
/// wraparound within the same timestamp: expected carry propagation.
pub open spec fn hi_carry_event(prev: IdView, curr: IdView) -> bool {
    &&& curr.counter_hi == prev.counter_hi + 1
    &&& curr.timestamp == prev.timestamp
    &&& curr.counter_lo == 0
    &&& prev.counter_lo == COUNTER_LO_MAX
}

/// Any other change of the high counter: an organic slow-tier refresh.
pub open spec fn hi_update_event(prev: IdView, curr: IdView) -> bool {
    !hi_carry_event(prev, curr) && curr.counter_hi != prev.counter_hi
}

/// The aggregator state after observing one accepted identifier.
pub open spec fn spec_observe(st: StatusView, prev: IdView, curr: IdView) -> StatusView {
    let ts = curr.timestamp as int;
    let st1 = StatusView {
        ts_first: if st.ts_first == 0 {
            ts
        } else {
            st.ts_first
        },
        ts_last: ts,
        n_ones_by_bit_entropy: bumped(st.n_ones_by_bit_entropy, curr.entropy),
        ..st
    };
    let st2 = if lo_reset_event(prev, curr) {
        StatusView {
            n_counter_lo_update: if st1.ts_last_counter_lo_update > 0 {
                st1.n_counter_lo_update + 1
            } else {
                st1.n_counter_lo_update
            },
            sum_intervals_counter_lo_update: if st1.ts_last_counter_lo_update > 0 {
                st1.sum_intervals_counter_lo_update + ts - st1.ts_last_counter_lo_update
            } else {
                st1.sum_intervals_counter_lo_update
            },
            ts_last_counter_lo_update: ts,
            n_ones_by_bit_counter_lo: bumped(st1.n_ones_by_bit_counter_lo, curr.counter_lo),
            ..st1
        }
    } else {
        st1
    };
    if hi_carry_event(prev, curr) {
        StatusView { n_counter_hi_increment: st2.n_counter_hi_increment + 1, ..st2 }
    } else if hi_update_event(prev, curr) {
        StatusView {
            n_counter_hi_update: if st2.ts_last_counter_hi_update > 0 {
                st2.n_counter_hi_update + 1
            } else {
                st2.n_counter_hi_update
            },
            sum_intervals_counter_hi_update: if st2.ts_last_counter_hi_update > 0 {
                st2.sum_intervals_counter_hi_update + ts - st2.ts_last_counter_hi_update
            } else {
                st2.sum_intervals_counter_hi_update
            },
            ts_last_counter_hi_update: ts,
            n_ones_by_bit_counter_hi: bumped(st2.n_ones_by_bit_counter_hi, curr.counter_hi),
            ..st2
        }
    } else {
        st2
    }
}

/// The all-zero state the aggregator starts from.
pub open spec fn init_status() -> StatusView {
    StatusView {
        n_processed: 0,
        n_errors: 0,
        ts_first: 0,
        ts_last: 0,
        n_ones_by_bit_entropy: Seq::new(32, |i: int| 0),
        n_counter_lo_update: 0,
        ts_last_counter_lo_update: 0,
        sum_intervals_counter_lo_update: 0,
        n_ones_by_bit_counter_lo: Seq::new(24, |i: int| 0),
        n_counter_hi_increment: 0,
        n_counter_hi_update: 0,
        ts_last_counter_hi_update: 0,
        sum_intervals_counter_hi_update: 0,
        n_ones_by_bit_counter_hi: Seq::new(24, |i: int| 0),
        ts_last_stats_print: 0,
    }
}

/// Aggregator state: cumulative tallies, per-field-change trackers and
/// set-bit histograms, updated once per accepted identifier.
pub struct Status {
    pub n_processed: usize,
    pub n_errors: usize,
    pub ts_first: u64,
    pub ts_last: u64,
    pub n_ones_by_bit_entropy: Vec<usize>,
    pub n_counter_lo_update: usize,
    pub ts_last_counter_lo_update: u64,
    pub sum_intervals_counter_lo_update: u64,
    pub n_ones_by_bit_counter_lo: Vec<usize>,
    pub n_counter_hi_increment: usize,
    pub n_counter_hi_update: usize,
    pub ts_last_counter_hi_update: u64,
    pub sum_intervals_counter_hi_update: u64,
    pub n_ones_by_bit_counter_hi: Vec<usize>,
    pub ts_last_stats_print: u64,
}

impl View for Status {
    type V = StatusView;

    open spec fn view(&self) -> StatusView {
        StatusView {
            n_processed: self.n_processed as int,
            n_errors: self.n_errors as int,
            ts_first: self.ts_first as int,
            ts_last: self.ts_last as int,
            n_ones_by_bit_entropy: to_ints(self.n_ones_by_bit_entropy@),
            n_counter_lo_update: self.n_counter_lo_update as int,
            ts_last_counter_lo_update: self.ts_last_counter_lo_update as int,
            sum_intervals_counter_lo_update: self.sum_intervals_counter_lo_update as int,
            n_ones_by_bit_counter_lo: to_ints(self.n_ones_by_bit_counter_lo@),
            n_counter_hi_increment: self.n_counter_hi_increment as int,
            n_counter_hi_update: self.n_counter_hi_update as int,
            ts_last_counter_hi_update: self.ts_last_counter_hi_update as int,
            sum_intervals_counter_hi_update: self.sum_intervals_counter_hi_update as int,
            n_ones_by_bit_counter_hi: to_ints(self.n_ones_by_bit_counter_hi@),
            ts_last_stats_print: self.ts_last_stats_print as int,
        }
    }
}

/// A vector of `n` zero counts.
fn zero_counts(n: usize) -> (r: Vec<usize>)
    ensures
        to_ints(r@) == Seq::new(n as nat, |i: int| 0int),
{
    let mut r: Vec<usize> = Vec::new();
    let mut i: usize = 0;
    while i < n
        invariant
            0 <= i <= n,
            r@.len() == i,
            forall|j: int| 0 <= j < i ==> r@[j] == 0,
        decreases n - i,
    {
        r.push(0);
        i = i + 1;
    }
    proof {
        assert(to_ints(r@) =~= Seq::new(n as nat, |i: int| 0int));
    }
    r
}

impl Status {
    /// The all-zero state at stream start.
    pub fn new() -> (r: Status)
        ensures
            r@ == init_status(),
            r@.wf(),
    {
        let r = Status {
            n_processed: 0,
            n_errors: 0,
            ts_first: 0,
            ts_last: 0,
            n_ones_by_bit_entropy: zero_counts(32),
            n_counter_lo_update: 0,
            ts_last_counter_lo_update: 0,
            sum_intervals_counter_lo_update: 0,
            n_ones_by_bit_counter_lo: zero_counts(24),
            n_counter_hi_increment: 0,
            n_counter_hi_update: 0,
            ts_last_counter_hi_update: 0,
            sum_intervals_counter_hi_update: 0,
            n_ones_by_bit_counter_hi: zero_counts(24),
            ts_last_stats_print: 0,
        };
        proof {
            assert(r@ =~= init_status());
        }
        r
    }

    /// Feeds one accepted identifier into the aggregates: per-record
    /// tallies and entropy census, then the two change-triggered trackers.
    pub fn observe(&mut self, prev: &Identifier, curr: &Identifier)
        requires
            old(self)@.wf(),
            prev@.wf(),
            curr@.wf(),
            counters_below(old(self)@, old(self)@.n_processed),
            curr.timestamp >= old(self).ts_last,
            curr.timestamp >= old(self).ts_last_counter_lo_update,
            curr.timestamp >= old(self).ts_last_counter_hi_update,
        ensures
            final(self)@ == spec_observe(old(self)@, prev@, curr@),
            final(self)@.wf(),
    {
        proof {
            lemma_field_bounds(prev.int_value);
            lemma_field_bounds(curr.int_value);
            lemma_counts_have_room(self.n_ones_by_bit_entropy@, old(self)@.n_processed);
            lemma_counts_have_room(self.n_ones_by_bit_counter_lo@, old(self)@.n_processed);
            lemma_counts_have_room(self.n_ones_by_bit_counter_hi@, old(self)@.n_processed);
        }
        if self.ts_first == 0 {
            self.ts_first = curr.timestamp;
        }
        self.ts_last = curr.timestamp;
        count_set_bits_by_pos(&mut self.n_ones_by_bit_entropy, curr.entropy);

        if curr.counter_lo != prev.counter_lo + 1 && !(curr.counter_lo == 0 && prev.counter_lo
            == COUNTER_LO_MAX) {
            if self.ts_last_counter_lo_update > 0 {
                self.n_counter_lo_update = self.n_counter_lo_update + 1;
                self.sum_intervals_counter_lo_update = self.sum_intervals_counter_lo_update + (
                curr.timestamp - self.ts_last_counter_lo_update);
            }
            self.ts_last_counter_lo_update = curr.timestamp;
            count_set_bits_by_pos(&mut self.n_ones_by_bit_counter_lo, curr.counter_lo);
        }

        if curr.counter_hi == prev.counter_hi + 1 && curr.timestamp == prev.timestamp
            && curr.counter_lo == 0 && prev.counter_lo == COUNTER_LO_MAX {
            self.n_counter_hi_increment = self.n_counter_hi_increment + 1;
        } else if curr.counter_hi != prev.counter_hi {
            if self.ts_last_counter_hi_update > 0 {
                self.n_counter_hi_update = self.n_counter_hi_update + 1;
                self.sum_intervals_counter_hi_update = self.sum_intervals_counter_hi_update + (
                curr.timestamp - self.ts_last_counter_hi_update);
            }
            self.ts_last_counter_hi_update = curr.timestamp;
            count_set_bits_by_pos(&mut self.n_ones_by_bit_counter_hi, curr.counter_hi);
        }
        proof {
            assert(self@ =~= spec_observe(old(self)@, prev@, curr@));
        }
    }
}

} // verus!
