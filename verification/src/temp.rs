//! Temperature sampling: discovery of sensor input names, parsing of
//! milli-degree readings, aggregation of the maximum over all sources,
//! and conversion to whole degrees Celsius.

use crate::parse::ParseError;
use crate::parse::dec_value;
use crate::parse::is_digits;
use crate::parse::parse_u64;
use crate::parse::spec_trim;
use crate::parse::trim_bytes;
use crate::parse::views_of;
use vstd::prelude::*;
use vstd::slice::slice_subrange;

verus! {

/// Whether a directory entry's file name marks a sensor input source:
/// the name ends with `input`.
pub open spec fn spec_is_input_name(s: Seq<u8>) -> bool {
    s.len() >= 5 && s[s.len() - 5] == 105 && s[s.len() - 4] == 110 && s[s.len() - 3] == 112 && s[
        s.len() - 2
    ] == 117 && s[s.len() - 1] == 116
}

/// Decides whether a file name, as bytes, names a sensor input source.
pub fn is_sensor_input_name(name: &[u8]) -> (r: bool)
    ensures
        r == spec_is_input_name(name@),
{
    let n = name.len();
    if n < 5 {
        return false;
    }
    name[n - 5] == 105 && name[n - 4] == 110 && name[n - 3] == 112 && name[n - 2] == 117 && name[n
        - 1] == 116
}

/// The milli-degree value encoded by a sensor reading: the content
/// trimmed of whitespace, an optional leading minus sign, then a
/// decimal numeral; `None` when the content is not of that shape.
pub open spec fn spec_milli(s: Seq<u8>) -> Option<int> {
    let t = spec_trim(s);
    if t.len() > 0 && t[0] == 45 {
        if is_digits(t.skip(1)) {
            Some(-(dec_value(t.skip(1)) as int))
        } else {
            None
        }
    } else if is_digits(t) {
        Some(dec_value(t) as int)
    } else {
        None
    }
}

/// Parses one sensor reading as an integer count of milli-degrees.
/// Fails when the trimmed content is not a decimal numeral with an
/// optional sign, or its magnitude does not fit 63 bits.
pub fn parse_milli_degrees(s: &[u8]) -> (r: Result<i64, ParseError>)
    ensures
        (spec_milli(s@) matches Some(v) ==> (-(i64::MAX as int) <= v <= i64::MAX as int ==> (
        r matches Ok(m) && m == v))),
        (spec_milli(s@) matches Some(v) ==> ((v < -(i64::MAX as int) || v > i64::MAX as int)
            ==> r is Err)),
        (spec_milli(s@) is None ==> r is Err),
{
    let t = trim_bytes(s);
    if t.len() > 0 && t[0] == 45 {
        let mag = slice_subrange(t, 1, t.len());
        proof {
            assert(mag@ =~= spec_trim(s@).skip(1));
        }
        match parse_u64(mag) {
            Some(v) => if v <= 0x7fff_ffff_ffff_ffffu64 {
                Ok(-(v as i64))
            } else {
                Err(ParseError)
            },
            None => Err(ParseError),
        }
    } else {
        match parse_u64(t) {
            Some(v) => if v <= 0x7fff_ffff_ffff_ffffu64 {
                Ok(v as i64)
            } else {
                Err(ParseError)
            },
            None => Err(ParseError),
        }
    }
}

/// The readings among `cs` that parse as milli-degree values and fit a
/// 64-bit signed integer, in source order.
pub open spec fn parsed_vals(cs: Seq<Seq<u8>>) -> Seq<int>
    decreases cs.len(),
{
    if cs.len() == 0 {
        Seq::<int>::empty()
    } else {
        parsed_vals(cs.drop_last()) + (match spec_milli(cs.last()) {
            Some(v) => if -(i64::MAX as int) <= v <= i64::MAX as int {
                seq![v]
            } else {
                Seq::<int>::empty()
            },
            None => Seq::<int>::empty(),
        })
    }
}

/// The maximum of a non-empty sequence of readings.
pub open spec fn spec_max(vals: Seq<int>) -> int
    recommends
        vals.len() > 0,
    decreases vals.len(),
{
    if vals.len() <= 1 {
        vals[0]
    } else {
        let m = spec_max(vals.drop_last());
        if vals.last() > m {
            vals.last()
        } else {
            m
        }
    }
}

/// Retains the maximum milli-degree reading of the most recent tick.
/// The sources themselves (the open sensor handles) live outside the
/// sampler; each tick hands their raw contents in.
pub struct TemperatureSampler {
    /// Maximum reading of the last tick in milli-degrees, or `None`
    /// when no discovered source yielded a well-formed reading — the
    /// sentinel for absent sensors, deliberately distinct from zero
    /// degrees.
    pub data: Option<i64>,
}

impl TemperatureSampler {
    /// A retained reading never holds the one unrepresentable magnitude.
    pub open spec fn wf(&self) -> bool {
        self.data matches Some(m) ==> m > i64::MIN
    }

    /// Starts with no reading: before the first tick the sentinel holds.
    pub fn new() -> (r: TemperatureSampler)
        ensures
            r.data is None,
            r.wf(),
    {
        TemperatureSampler { data: None }
    }

    /// Aggregates one tick's raw source contents: every content that
    /// parses as a milli-degree reading takes part, malformed sources
    /// are skipped, and the maximum is retained; with no well-formed
    /// reading the sentinel `None` is retained.
    pub fn sample(&mut self, contents: &Vec<Vec<u8>>)
        ensures
            parsed_vals(views_of(contents@)).len() == 0 ==> final(self).data is None,
            parsed_vals(views_of(contents@)).len() > 0 ==> (final(self).data matches Some(m) && m
                == spec_max(parsed_vals(views_of(contents@)))),
            final(self).wf(),
    {
        let mut best: Option<i64> = None;
        let mut i: usize = 0;
        proof {
            assert(views_of(contents@).take(0) =~= Seq::<Seq<u8>>::empty());
        }
        while i < contents.len()
            invariant
                0 <= i <= contents@.len(),
                parsed_vals(views_of(contents@).take(i as int)).len() == 0 <==> best is None,
                (best matches Some(m) ==> m > i64::MIN && m == spec_max(
                    parsed_vals(views_of(contents@).take(i as int)),
                )),
            decreases contents@.len() - i,
        {
            let ghost pre = views_of(contents@).take(i as int);
            let ghost post = views_of(contents@).take(i as int + 1);
            let ghost pv = parsed_vals(pre);
            proof {
                assert(post.drop_last() =~= pre);
                assert(post.last() == contents@[i as int]@);
            }
            match parse_milli_degrees(contents[i].as_slice()) {
                Ok(v) => {
                    proof {
                        assert(parsed_vals(post) == pv + seq![v as int]);
                        assert((pv + seq![v as int]).drop_last() =~= pv);
                        assert((pv + seq![v as int]).last() == v as int);
                    }
                    match best {
                        None => {
                            best = Some(v);
                        },
                        Some(m) => {
                            if v > m {
                                best = Some(v);
                            }
                        },
                    }
                },
                Err(_) => {
                    proof {
                        assert(parsed_vals(post) =~= pv);
                    }
                },
            }
            i = i + 1;
        }
        proof {
            assert(views_of(contents@).take(contents@.len() as int) =~= views_of(contents@));
        }
        self.data = best;
    }

    /// Truncating conversion of a milli-degree count to whole degrees.
    pub open spec fn spec_degrees(m: int) -> int {
        if m >= 0 {
            m / 1000
        } else {
            -((-m) / 1000)
        }
    }

    /// The last retained maximum in whole degrees Celsius, truncated
    /// toward zero, or `None` when no source yielded a reading.
    pub fn in_degree_c(&self) -> (r: Option<i64>)
        requires
            self.wf(),
        ensures
            (self.data matches Some(m) ==> (r matches Some(d) && d
                == TemperatureSampler::spec_degrees(m as int) && d > i64::MIN)),
            (self.data is None ==> r is None),
    {
        match self.data {
            None => None,
            Some(m) => {
                if m >= 0 {
                    Some(((m as u64) / 1000) as i64)
                } else {
                    let mag: u64 = (-m) as u64;
                    Some(-((mag / 1000) as i64))
                }
            },
        }
    }
}

} // verus!
