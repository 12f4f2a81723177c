//! The decode-validate-aggregate step over one input line, and the
//! mathematical model of running it over a whole stream.

use vstd::prelude::*;

use crate::codec::{
    lemma_field_bounds, spec_decode, well_formed_token, IdView, Identifier,
};
use crate::stats::{
    counters_below, init_status, lo_reset_event, spec_observe, Status, StatusView,
};
use crate::validate::{spec_validate, validate, ValidationOutcome};

verus! {

/// Gap between two periodic reports, in milliseconds of stream time.
pub const STATS_INTERVAL: u64 = 10000;

/// Mathematical image of the processing state.
#[verifier::ext_equal]
pub ghost struct SessionView {
    pub status: StatusView,
    pub prev: IdView,
}

/// Processing state: the aggregates and the last accepted identifier,
/// which every new record is compared against.
pub struct Session {
    pub status: Status,
    pub prev: Identifier,
}

impl View for Session {
    type V = SessionView;

    open spec fn view(&self) -> SessionView {
        SessionView { status: self.status@, prev: self.prev@ }
    }
}

/// The all-zero identifier every stream starts from: any well-formed
/// record with a positive integer value is accepted against it.
pub open spec fn zero_id() -> IdView {
    IdView {
        str_bytes: Seq::new(25, |i: int| 0u8),
        int_value: 0,
        timestamp: 0,
        counter_hi: 0,
        counter_lo: 0,
        entropy: 0,
    }
}

/// A sequence of zero bytes is worth zero.
proof fn lemma_zero_token_value(n: nat)
    ensures
        crate::codec::token_value(Seq::new(n, |i: int| 0u8)) == 0,
    decreases n,
{
    let s = Seq::new(n, |i: int| 0u8);
    if n > 0 {
        let t = Seq::new((n - 1) as nat, |i: int| 0u8);
        assert(s.drop_last() =~= t);
        lemma_zero_token_value((n - 1) as nat);
        assert(crate::codec::symbol_value(0u8) == 0);
    }
}

/// The zero identifier is structurally sound.
pub proof fn lemma_zero_id_wf()
    ensures
        zero_id().wf(),
{
    lemma_zero_token_value(25);
    assert(0u128 >> 80 == 0) by (bit_vector);
    assert((0u128 >> 56) & 0xff_ffff == 0) by (bit_vector);
    assert((0u128 >> 32) & 0xff_ffff == 0) by (bit_vector);
    assert(0u128 & 0xffff_ffff == 0) by (bit_vector);
}

/// The timing invariants the step preserves: the change trackers never run
/// ahead of the last accepted record's timestamp.
pub open spec fn session_wf(s: SessionView) -> bool {
    &&& s.status.wf()
    &&& s.prev.wf()
    &&& s.status.ts_last <= s.prev.timestamp
    &&& s.status.ts_last_counter_lo_update <= s.prev.timestamp
    &&& s.status.ts_last_counter_hi_update <= s.prev.timestamp
}

/// Outcome of one step of the processing loop.
#[verifier::ext_equal]
pub ghost struct StepResult {
    pub status: StatusView,
    pub prev: IdView,
    pub outcome: ValidationOutcome,
    pub report_due: bool,
}

/// One step of the processing loop: decode, validate against the last
/// accepted baseline, aggregate on acceptance, and arm the periodic
/// report. A rejected record only bumps the error tally (and, when it
/// decoded, the processed tally); the baseline never advances past it.
pub open spec fn spec_step(st: StatusView, prev: IdView, line: Seq<u8>) -> StepResult {
    if !well_formed_token(line) {
        StepResult {
            status: StatusView { n_errors: st.n_errors + 1, ..st },
            prev,
            outcome: ValidationOutcome::MalformedToken,
            report_due: false,
        }
    } else {
        let id = spec_decode(line);
        let st1 = StatusView { n_processed: st.n_processed + 1, ..st };
        let oc = spec_validate(prev, id);
        if !(oc is Accepted) {
            StepResult {
                status: StatusView { n_errors: st1.n_errors + 1, ..st1 },
                prev,
                outcome: oc,
                report_due: false,
            }
        } else {
            let st2 = spec_observe(st1, prev, id);
            if id.timestamp > st2.ts_last_stats_print + STATS_INTERVAL {
                StepResult {
                    status: StatusView { ts_last_stats_print: id.timestamp as int, ..st2 },
                    prev: id,
                    outcome: oc,
                    report_due: st2.ts_last_stats_print > 0,
                }
            } else {
                StepResult { status: st2, prev: id, outcome: oc, report_due: false }
            }
        }
    }
}

impl Session {
    /// Fresh state: zero aggregates, zero baseline.
    pub fn new() -> (r: Session)
        ensures
            r@.status == init_status(),
            r@.prev == zero_id(),
            session_wf(r@),
    {
        let mut zeros: Vec<u8> = Vec::new();
        let mut i: usize = 0;
        while i < 25
            invariant
                0 <= i <= 25,
                zeros@.len() == i,
                forall|j: int| 0 <= j < i ==> zeros@[j] == 0u8,
            decreases 25 - i,
        {
            zeros.push(0u8);
            i = i + 1;
        }
        let prev = Identifier {
            str_bytes: zeros,
            int_value: 0,
            timestamp: 0,
            counter_hi: 0,
            counter_lo: 0,
            entropy: 0,
        };
        proof {
            assert(prev@ =~= zero_id());
            lemma_zero_id_wf();
        }
        Session { status: Status::new(), prev }
    }

    /// Runs one input line through decode, validation, aggregation and the
    /// periodic report trigger. Returns the record's outcome and whether a
    /// periodic report is due now.
    pub fn process_line(&mut self, line: &[u8]) -> (r: (ValidationOutcome, bool))
        requires
            session_wf(old(self)@),
            old(self)@.status.n_processed < usize::MAX,
            old(self)@.status.n_errors < usize::MAX,
        ensures
            final(self)@.status == spec_step(old(self)@.status, old(self)@.prev, line@).status,
            final(self)@.prev == spec_step(old(self)@.status, old(self)@.prev, line@).prev,
            r.0 == spec_step(old(self)@.status, old(self)@.prev, line@).outcome,
            r.1 == spec_step(old(self)@.status, old(self)@.prev, line@).report_due,
            session_wf(final(self)@),
    {
        let decoded = Identifier::new(line);
        match decoded {
            Option::None => {
                self.status.n_errors = self.status.n_errors + 1;
                proof {
                    assert(self@.status =~= spec_step(old(self)@.status, old(self)@.prev, line@)
                        .status);
                }
                (ValidationOutcome::MalformedToken, false)
            },
            Option::Some(e) => {
                self.status.n_processed = self.status.n_processed + 1;
                let oc = validate(&self.prev, &e);
                if !matches!(oc, ValidationOutcome::Accepted) {
                    self.status.n_errors = self.status.n_errors + 1;
                    proof {
                        assert(self@.status =~= spec_step(old(self)@.status, old(self)@.prev, line@)
                            .status);
                    }
                    (oc, false)
                } else {
                    proof {
                        lemma_field_bounds(e.int_value);
                        assert(counters_below(self@.status, self@.status.n_processed));
                    }
                    self.status.observe(&self.prev, &e);
                    let mut due = false;
                    if e.timestamp > self.status.ts_last_stats_print + STATS_INTERVAL {
                        due = self.status.ts_last_stats_print > 0;
                        self.status.ts_last_stats_print = e.timestamp;
                    }
                    self.prev = e;
                    proof {
                        assert(self@.status =~= spec_step(old(self)@.status, old(self)@.prev, line@)
                            .status);
                    }
                    (oc, due)
                }
            },
        }
    }

    /// The stream as a whole conforms when something was accepted and
    /// nothing was rejected.
    pub fn finished_ok(&self) -> (r: bool)
        ensures
            r == (self@.status.n_processed > 0 && self@.status.n_errors == 0),
    {
        self.status.n_processed > 0 && self.status.n_errors == 0
    }
}

/// The processing state after feeding a whole sequence of lines.
pub open spec fn spec_run(st: StatusView, prev: IdView, lines: Seq<Seq<u8>>) -> (StatusView, IdView)
    decreases lines.len(),
{
    if lines.len() == 0 {
        (st, prev)
    } else {
        let r = spec_step(st, prev, lines.first());
        spec_run(r.status, r.prev, lines.drop_first())
    }
}

/// How many of the lines decode, counted along the run.
pub open spec fn run_decoded_count(lines: Seq<Seq<u8>>) -> int
    decreases lines.len(),
{
    if lines.len() == 0 {
        0
    } else {
        (if well_formed_token(lines.first()) {
            1int
        } else {
            0int
        }) + run_decoded_count(lines.drop_first())
    }
}

/// How many steps of the run reject their line, malformed or misordered.
pub open spec fn run_rejected_count(st: StatusView, prev: IdView, lines: Seq<Seq<u8>>) -> int
    decreases lines.len(),
{
    if lines.len() == 0 {
        0
    } else {
        let r = spec_step(st, prev, lines.first());
        (if r.outcome is Accepted {
            0int
        } else {
            1int
        }) + run_rejected_count(r.status, r.prev, lines.drop_first())
    }
}

/// Tally law: over any stream, the processed tally counts exactly the
/// lines that decode, and the error tally counts exactly the rejected
/// steps.
pub proof fn lemma_run_tallies(st: StatusView, prev: IdView, lines: Seq<Seq<u8>>)
    ensures
        spec_run(st, prev, lines).0.n_processed == st.n_processed + run_decoded_count(lines),
        spec_run(st, prev, lines).0.n_errors == st.n_errors + run_rejected_count(st, prev, lines),
    decreases lines.len(),
{
    if lines.len() > 0 {
        let r = spec_step(st, prev, lines.first());
        lemma_run_tallies(r.status, r.prev, lines.drop_first());
    }
}

/// A rejected step never touches the baseline or the aggregates: only the
/// tallies move, and the next record is compared against the same last
/// accepted identifier.
pub proof fn lemma_rejected_step_keeps_state(st: StatusView, prev: IdView, line: Seq<u8>)
    requires
        !(spec_step(st, prev, line).outcome is Accepted),
    ensures
        spec_step(st, prev, line).prev == prev,
        spec_step(st, prev, line).status == (StatusView {
            n_processed: st.n_processed + (if well_formed_token(line) {
                1int
            } else {
                0int
            }),
            n_errors: st.n_errors + 1,
            ..st
        }),
        spec_step(st, prev, line).report_due == false,
{
    assert(spec_step(st, prev, line).status =~= StatusView {
        n_processed: st.n_processed + (if well_formed_token(line) {
            1int
        } else {
            0int
        }),
        n_errors: st.n_errors + 1,
        ..st
    });
}

/// Every step of the run accepts its line.
pub open spec fn all_steps_accepted(st: StatusView, prev: IdView, lines: Seq<Seq<u8>>) -> bool
    decreases lines.len(),
{
    lines.len() == 0 || {
        let r = spec_step(st, prev, lines.first());
        r.outcome is Accepted && all_steps_accepted(r.status, r.prev, lines.drop_first())
    }
}

/// Acceptance of every step depends only on the decoded identifiers, not
/// on the aggregates: a line is accepted when it is well formed and
/// validates against the last accepted identifier.
pub proof fn lemma_step_accept_condition(st: StatusView, prev: IdView, line: Seq<u8>)
    ensures
        spec_step(st, prev, line).outcome is Accepted <==> well_formed_token(line)
            && spec_validate(prev, spec_decode(line)) is Accepted,
        spec_step(st, prev, line).outcome is Accepted ==> spec_step(st, prev, line).prev
            == spec_decode(line),
{
}

/// Clean-stream law: feeding a well-formed stream in which every record
/// validates against its predecessor processes every record and rejects
/// none, and leaves the last record as the baseline.
pub proof fn lemma_clean_run_counts(st: StatusView, prev: IdView, lines: Seq<Seq<u8>>)
    requires
        all_steps_accepted(st, prev, lines),
    ensures
        spec_run(st, prev, lines).0.n_processed == st.n_processed + lines.len(),
        spec_run(st, prev, lines).0.n_errors == st.n_errors,
        lines.len() > 0 ==> spec_run(st, prev, lines).1 == spec_decode(lines.last()),
    decreases lines.len(),
{
    if lines.len() > 0 {
        let r = spec_step(st, prev, lines.first());
        lemma_step_accept_condition(st, prev, lines.first());
        lemma_clean_run_counts(r.status, r.prev, lines.drop_first());
        if lines.len() > 1 {
            assert(lines.drop_first().last() == lines.last());
        }
    }
}

/// Steady progression of the low counter between two accepted records:
/// the exact increment by one, or the defined wraparound.
pub open spec fn lo_steady(prev: IdView, curr: IdView) -> bool {
    !lo_reset_event(prev, curr)
}

/// Every accepted step of the run keeps the low counter steady.
pub open spec fn all_steps_lo_steady(st: StatusView, prev: IdView, lines: Seq<Seq<u8>>) -> bool
    decreases lines.len(),
{
    lines.len() == 0 || {
        let r = spec_step(st, prev, lines.first());
        r.outcome is Accepted && lo_steady(prev, spec_decode(lines.first()))
            && all_steps_lo_steady(r.status, r.prev, lines.drop_first())
    }
}

/// Fast-tier law, steady half: while the low counter advances by exactly
/// one each time (or wraps at the boundary), no reset event and no
/// interval sample is recorded.
pub proof fn lemma_steady_run_no_resets(st: StatusView, prev: IdView, lines: Seq<Seq<u8>>)
    requires
        all_steps_lo_steady(st, prev, lines),
    ensures
        spec_run(st, prev, lines).0.n_counter_lo_update == st.n_counter_lo_update,
        spec_run(st, prev, lines).0.sum_intervals_counter_lo_update
            == st.sum_intervals_counter_lo_update,
        spec_run(st, prev, lines).0.ts_last_counter_lo_update == st.ts_last_counter_lo_update,
    decreases lines.len(),
{
    if lines.len() > 0 {
        let r = spec_step(st, prev, lines.first());
        lemma_steady_run_no_resets(r.status, r.prev, lines.drop_first());
    }
}

/// Fast-tier law, reset half: the moment an accepted record breaks the
/// progression after a baseline exists, exactly one reset event and one
/// interval sample are recorded.
pub proof fn lemma_reset_step_records_one_sample(st: StatusView, prev: IdView, line: Seq<u8>)
    requires
        spec_step(st, prev, line).outcome is Accepted,
        lo_reset_event(prev, spec_decode(line)),
        st.ts_last_counter_lo_update > 0,
    ensures
        spec_step(st, prev, line).status.n_counter_lo_update == st.n_counter_lo_update + 1,
        spec_step(st, prev, line).status.sum_intervals_counter_lo_update
            == st.sum_intervals_counter_lo_update + spec_decode(line).timestamp
            - st.ts_last_counter_lo_update,
        spec_step(st, prev, line).status.ts_last_counter_lo_update == spec_decode(
            line,
        ).timestamp,
{
}

} // verus!
