//! CPU load sampling: cumulative counter pairs, the retained
//! current/previous sample pair, and the delta-based utilization
//! percentage.

use crate::parse::ParseError;
use crate::parse::dec_value;
use crate::parse::is_digits;
use crate::parse::spec_split;
use crate::parse::split_tokens;
use crate::parse::views_of;
use crate::parse::parse_u64;
use vstd::prelude::*;
use vstd::arithmetic::div_mod::lemma_div_multiples_vanish_quotient;
use vstd::arithmetic::div_mod::lemma_div_pos_is_pos;
use vstd::arithmetic::div_mod::lemma_multiply_divide_le;
use vstd::arithmetic::mul::lemma_mul_inequality;

verus! {

/// One reading of the kernel's cumulative CPU time accounting, in
/// arbitrary kernel time units accumulated since boot.
#[derive(Clone, Copy, PartialEq, Eq, Structural, Debug)]
pub struct CpuLoadData {
    /// Sum of all eight time categories (user, nice, system, idle,
    /// iowait, irq, softirq, steal).
    pub total_time: u64,
    /// Sum of the idle and iowait categories.
    pub idle_time: u64,
}

impl CpuLoadData {
    /// Builds a reading from its two accumulated counters.
    pub fn new(total_time: u64, idle_time: u64) -> (r: CpuLoadData)
        ensures
            r.total_time == total_time,
            r.idle_time == idle_time,
    {
        CpuLoadData { total_time, idle_time }
    }

    /// The counter deltas of the window from an earlier reading to this
    /// one.
    pub fn delta(self, earlier: CpuLoadData) -> (r: CpuLoadData)
        requires
            earlier.total_time <= self.total_time,
            earlier.idle_time <= self.idle_time,
        ensures
            r.total_time == self.total_time - earlier.total_time,
            r.idle_time == self.idle_time - earlier.idle_time,
    {
        CpuLoadData {
            total_time: self.total_time - earlier.total_time,
            idle_time: self.idle_time - earlier.idle_time,
        }
    }
}

/// Utilization over a sampling window with total-time delta `dt` and
/// idle-time delta `di`, in hundredths of a percent, rounded down.
pub open spec fn spec_utilization(dt: int, di: int) -> int
    recommends
        dt > 0,
{
    (dt - di) * 10000 / dt
}

/// A well-formed window: some kernel time elapsed, both counters moved
/// forward, and the idle share of the window does not exceed the window.
pub open spec fn spec_window_defined(prev: CpuLoadData, cur: CpuLoadData) -> bool {
    &&& prev.total_time < cur.total_time
    &&& prev.idle_time <= cur.idle_time
    &&& cur.idle_time - prev.idle_time <= cur.total_time - prev.total_time
}

/// Utilization lies between 0% and 100% on every well-formed window.
pub proof fn lemma_utilization_in_range(dt: int, di: int)
    requires
        0 < dt,
        0 <= di <= dt,
    ensures
        0 <= spec_utilization(dt, di) <= 10000,
{
    lemma_div_pos_is_pos((dt - di) * 10000, dt);
    lemma_mul_inequality(dt - di, dt, 10000);
    lemma_multiply_divide_le((dt - di) * 10000, dt, 10000);
}

/// For any two temporally ordered readings that form a well-formed
/// window, the utilization over that window lies between 0% and 100%.
pub proof fn lemma_utilization_percent_bounded(prev: CpuLoadData, cur: CpuLoadData)
    requires
        spec_window_defined(prev, cur),
    ensures
        0 <= spec_utilization(
            cur.total_time - prev.total_time,
            cur.idle_time - prev.idle_time,
        ) <= 10000,
{
    lemma_utilization_in_range(
        cur.total_time - prev.total_time,
        cur.idle_time - prev.idle_time,
    );
}

/// Utilization is scale-free: multiplying both deltas of a window by
/// the same positive factor leaves the percentage unchanged.
pub proof fn lemma_utilization_scale_free(dt: int, di: int, k: int)
    requires
        0 < dt,
        0 <= di <= dt,
        0 < k,
    ensures
        spec_utilization(k * dt, k * di) == spec_utilization(dt, di),
{
    assert(k * dt - k * di == k * (dt - di)) by (nonlinear_arith);
    assert((k * (dt - di)) * 10000 == k * ((dt - di) * 10000)) by (nonlinear_arith);
    lemma_div_multiples_vanish_quotient(k, (dt - di) * 10000, dt);
}

/// The eight accumulated counter values of a counter line: tokens 2
/// through 9 (label and one layout token skipped), in the order user,
/// nice, system, idle, iowait, irq, softirq, steal; `None` when the
/// line is too short or a field is not a decimal numeral.
pub open spec fn spec_counter_fields(s: Seq<u8>) -> Option<Seq<nat>> {
    let toks = spec_split(s);
    if toks.len() >= 10 && (forall|i: int| 2 <= i < 10 ==> is_digits(#[trigger] toks[i])) {
        Some(Seq::new(8, |i: int| dec_value(toks[i + 2])))
    } else {
        None
    }
}

/// The total accumulated time: the sum of all eight counter fields.
pub open spec fn spec_total_of(vals: Seq<nat>) -> nat
    recommends
        vals.len() == 8,
{
    vals[0] + vals[1] + vals[2] + vals[3] + vals[4] + vals[5] + vals[6] + vals[7]
}

/// The idle accumulated time: the idle and iowait fields.
pub open spec fn spec_idle_of(vals: Seq<nat>) -> nat
    recommends
        vals.len() == 8,
{
    vals[3] + vals[4]
}

/// Parses the first line of the counter source into a reading: skips
/// the label and one layout token, reads the eight accumulated
/// counters, and sums them into total and idle time. Fails when the
/// line has too few fields, a field is not a decimal numeral, or the
/// total does not fit in 64 bits.
pub fn parse_cpu_counters(line: &[u8]) -> (r: Result<CpuLoadData, ParseError>)
    ensures
        (spec_counter_fields(line@) matches Some(vals) ==> (spec_total_of(vals) <= u64::MAX ==> (
        r matches Ok(d) && d.total_time == spec_total_of(vals) && d.idle_time == spec_idle_of(
            vals,
        )))),
        (spec_counter_fields(line@) is None ==> r is Err),
        (spec_counter_fields(line@) matches Some(vals) ==> (spec_total_of(vals) > u64::MAX
            ==> r is Err)),
{
    let toks = split_tokens(line);
    let ghost stoks = spec_split(line@);
    if toks.len() < 10 {
        return Err(ParseError);
    }
    let mut vals: Vec<u64> = Vec::new();
    let mut i: usize = 2;
    while i < 10
        invariant
            2 <= i <= 10,
            toks@.len() >= 10,
            views_of(toks@) == spec_split(line@),
            stoks == spec_split(line@),
            vals@.len() == i - 2,
            forall|j: int| #![trigger stoks[j]]
                2 <= j < i ==> is_digits(stoks[j]) && vals@[j - 2] == dec_value(stoks[j]),
        decreases 10 - i,
    {
        proof {
            assert(toks@[i as int]@ == views_of(toks@)[i as int]);
        }
        match parse_u64(toks[i].as_slice()) {
            Some(v) => {
                vals.push(v);
            },
            None => {
                proof {
                    if is_digits(stoks[i as int]) {
                        // The field is a numeral too large for 64 bits, so the
                        // total is as well.
                        if spec_counter_fields(line@) is Some {
                            let sv2 = spec_counter_fields(line@)->Some_0;
                            assert(sv2[i - 2] == dec_value(stoks[i as int]));
                            assert(spec_total_of(sv2) > u64::MAX);
                        }
                    } else {
                        assert(!(forall|j: int| 2 <= j < 10 ==> is_digits(#[trigger] stoks[j])));
                        assert(spec_counter_fields(line@) is None);
                    }
                }
                return Err(ParseError);
            },
        }
        i = i + 1;
    }
    let ghost sv = spec_counter_fields(line@)->Some_0;
    proof {
        assert(spec_counter_fields(line@) is Some);
        assert forall|k: int| 0 <= k < 8 implies sv[k] == #[trigger] vals@[k] by {
            assert(sv[k] == dec_value(stoks[k + 2]));
            assert(is_digits(stoks[k + 2]));
        }
    }
    let wide: u128 = vals[0] as u128 + vals[1] as u128 + vals[2] as u128 + vals[3] as u128
        + vals[4] as u128 + vals[5] as u128 + vals[6] as u128 + vals[7] as u128;
    proof {
        assert(wide == spec_total_of(sv));
    }
    if wide > 0xffff_ffff_ffff_ffffu128 {
        return Err(ParseError);
    }
    let idle: u64 = vals[3] + vals[4];
    Ok(CpuLoadData { total_time: wide as u64, idle_time: idle })
}

/// Retains the most recent counter reading and the one before it;
/// utilization is defined over the window between the two.
pub struct LoadSampler {
    /// The reading taken on the most recent tick.
    pub current: CpuLoadData,
    /// The reading taken on the tick before, the baseline of the window.
    pub previous: CpuLoadData,
}

impl LoadSampler {
    /// Starts from the all-zero baseline, so the first real sample
    /// reports utilization accumulated since boot (the documented
    /// cold-start artifact).
    pub fn new() -> (r: LoadSampler)
        ensures
            r.current == (CpuLoadData { total_time: 0u64, idle_time: 0u64 }),
            r.previous == (CpuLoadData { total_time: 0u64, idle_time: 0u64 }),
    {
        LoadSampler {
            current: CpuLoadData { total_time: 0, idle_time: 0 },
            previous: CpuLoadData { total_time: 0, idle_time: 0 },
        }
    }

    /// Records a fresh counter reading: the old current reading becomes
    /// the window baseline and the fresh one replaces it.
    pub fn sample(&mut self, reading: CpuLoadData)
        ensures
            final(self).previous == old(self).current,
            final(self).current == reading,
    {
        self.previous = self.current;
        self.current = reading;
    }

    /// Utilization over the retained window, in hundredths of a percent,
    /// or `None` when the window is degenerate (no elapsed kernel time,
    /// or counters that moved backwards or inconsistently).
    pub fn utilization_percent(&self) -> (r: Option<u64>)
        ensures
            spec_window_defined(self.previous, self.current) ==> r == Some(
                spec_utilization(
                    self.current.total_time - self.previous.total_time,
                    self.current.idle_time - self.previous.idle_time,
                ) as u64,
            ),
            !spec_window_defined(self.previous, self.current) ==> r is None,
    {
        if self.current.total_time <= self.previous.total_time {
            return None;
        }
        if self.current.idle_time < self.previous.idle_time {
            return None;
        }
        let d = self.current.delta(self.previous);
        let dt: u64 = d.total_time;
        let di: u64 = d.idle_time;
        if di > dt {
            return None;
        }
        proof {
            lemma_utilization_in_range(dt as int, di as int);
        }
        let busy: u128 = (dt - di) as u128;
        let r: u128 = busy * 10000 / (dt as u128);
        Some(r as u64)
    }
}

} // verus!
