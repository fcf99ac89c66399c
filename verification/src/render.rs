//! Output rendering: decimal numerals, the fixed-width two-decimal
//! percentage field, the degree display, and the one status line
//! emitted per tick.

use crate::load::LoadSampler;
use crate::load::lemma_utilization_in_range;
use crate::load::spec_utilization;
use crate::load::spec_window_defined;
use crate::temp::TemperatureSampler;
use vstd::prelude::*;

verus! {

/// The character of one decimal digit.
pub open spec fn spec_digit_char(d: nat) -> char {
    if d == 0 {
        '0'
    } else if d == 1 {
        '1'
    } else if d == 2 {
        '2'
    } else if d == 3 {
        '3'
    } else if d == 4 {
        '4'
    } else if d == 5 {
        '5'
    } else if d == 6 {
        '6'
    } else if d == 7 {
        '7'
    } else if d == 8 {
        '8'
    } else {
        '9'
    }
}

/// The decimal numeral of `n`, most significant digit first, without
/// leading zeros (a single `0` for zero).
pub open spec fn dec_str(n: nat) -> Seq<char>
    decreases n,
{
    if n < 10 {
        seq![spec_digit_char(n)]
    } else {
        dec_str(n / 10).push(spec_digit_char(n % 10))
    }
}

/// `n` space characters.
pub open spec fn spaces(n: nat) -> Seq<char>
    decreases n,
{
    if n == 0 {
        Seq::<char>::empty()
    } else {
        spaces((n - 1) as nat).push(' ')
    }
}

/// The percentage field for `h` hundredths of a percent: the numeral
/// with exactly two decimals, right-aligned with spaces to six
/// characters, then the percent sign.
pub open spec fn spec_format_percent(h: nat) -> Seq<char> {
    let num = dec_str(h / 100) + seq!['.', spec_digit_char((h / 10) % 10), spec_digit_char(h % 10)];
    let padded = if num.len() >= 6 {
        num
    } else {
        spaces((6 - num.len()) as nat) + num
    };
    padded + seq!['%']
}

/// The degree display: the signed whole-degree numeral and the Celsius
/// unit suffix.
pub open spec fn spec_format_temp(d: int) -> Seq<char> {
    (if d < 0 {
        seq!['-'] + dec_str((-d) as nat)
    } else {
        dec_str(d as nat)
    }) + seq!['°', 'C']
}

/// The sentinel shown when no sensor source yielded a reading.
pub open spec fn spec_no_reading() -> Seq<char> {
    seq!['N', '/', 'A', '°', 'C']
}

/// The whole status line: the percentage field, one space, then the
/// degree display or the no-reading sentinel.
pub open spec fn spec_status_line(h: nat, d: Option<int>) -> Seq<char> {
    spec_format_percent(h) + seq![' '] + (match d {
        Some(deg) => spec_format_temp(deg),
        None => spec_no_reading(),
    })
}

/// Relies on `String::from_iter` over `char`: collecting characters
/// yields the string of exactly those characters, in order.
#[verifier::external_body]
fn chars_to_string(v: &Vec<char>) -> (s: String)
    ensures
        s@ == v@,
{
    v.iter().collect()
}

/// The character of one decimal digit, executably.
fn digit_char(d: u64) -> (c: char)
    requires
        d < 10,
    ensures
        c == spec_digit_char(d as nat),
{
    if d == 0 {
        '0'
    } else if d == 1 {
        '1'
    } else if d == 2 {
        '2'
    } else if d == 3 {
        '3'
    } else if d == 4 {
        '4'
    } else if d == 5 {
        '5'
    } else if d == 6 {
        '6'
    } else if d == 7 {
        '7'
    } else if d == 8 {
        '8'
    } else {
        '9'
    }
}

/// The decimal numeral of `n` as characters.
fn dec_chars(n: u64) -> (v: Vec<char>)
    ensures
        v@ == dec_str(n as nat),
{
    let mut digits: Vec<char> = Vec::new();
    let c0 = digit_char(n % 10);
    digits.insert(0, c0);
    let mut rem: u64 = n / 10;
    proof {
        assert(digits@ =~= seq![spec_digit_char(n as nat % 10)]);
        if n < 10 {
            assert(n as nat % 10 == n as nat);
        }
    }
    while rem > 0
        invariant
            digits@.len() >= 1,
            rem > 0 ==> dec_str(n as nat) == dec_str(rem as nat) + digits@,
            rem == 0 ==> dec_str(n as nat) == digits@,
        decreases rem,
    {
        let ghost pre = digits@;
        let c = digit_char(rem % 10);
        digits.insert(0, c);
        proof {
            assert(digits@ =~= seq![spec_digit_char(rem as nat % 10)] + pre);
            if rem >= 10 {
                assert(dec_str(rem as nat) == dec_str(rem as nat / 10).push(
                    spec_digit_char(rem as nat % 10),
                ));
                assert(dec_str(rem as nat / 10).push(spec_digit_char(rem as nat % 10)) + pre =~= dec_str(
                    rem as nat / 10,
                ) + digits@);
            } else {
                assert(dec_str(rem as nat) =~= seq![spec_digit_char(rem as nat % 10)]);
                assert(dec_str(rem as nat) + pre =~= digits@);
            }
        }
        rem = rem / 10;
    }
    digits
}

/// The percentage field as characters.
fn percent_chars(hundredths: u64) -> (v: Vec<char>)
    ensures
        v@ == spec_format_percent(hundredths as nat),
{
    let mut num = dec_chars(hundredths / 100);
    num.push('.');
    num.push(digit_char((hundredths / 10) % 10));
    num.push(digit_char(hundredths % 10));
    let ghost numv = num@;
    proof {
        assert(numv =~= dec_str(hundredths as nat / 100) + seq![
            '.',
            spec_digit_char((hundredths as nat / 10) % 10),
            spec_digit_char(hundredths as nat % 10),
        ]);
    }
    let mut out: Vec<char> = Vec::new();
    let pad_needed: usize = if num.len() >= 6 {
        0
    } else {
        6 - num.len()
    };
    proof {
        assert(out@ =~= spaces(0));
    }
    while out.len() < pad_needed
        invariant
            out@ == spaces(out@.len() as nat),
            num@ == numv,
            out@.len() <= pad_needed,
        decreases pad_needed - out@.len(),
    {
        out.push(' ');
        proof {
            assert(out@ =~= spaces((out@.len() - 1) as nat).push(' '));
        }
    }
    let ghost pad = out@;
    out.append(&mut num);
    out.push('%');
    proof {
        if numv.len() >= 6 {
            assert(pad =~= spaces(0));
            assert(out@ =~= numv + seq!['%']);
        } else {
            assert(pad =~= spaces((6 - numv.len()) as nat));
            assert(out@ =~= spaces((6 - numv.len()) as nat) + numv + seq!['%']);
            assert(spaces((6 - numv.len()) as nat) + numv + seq!['%'] =~= (spaces(
                (6 - numv.len()) as nat,
            ) + numv) + seq!['%']);
        }
    }
    out
}

/// Formats `hundredths` of a percent as the fixed-width percentage
/// field, two decimals and the percent sign included.
pub fn format_percent(hundredths: u64) -> (s: String)
    ensures
        s@ == spec_format_percent(hundredths as nat),
{
    let v = percent_chars(hundredths);
    chars_to_string(&v)
}

/// The degree display as characters.
fn temp_chars(degrees: i64) -> (v: Vec<char>)
    requires
        degrees > i64::MIN,
    ensures
        v@ == spec_format_temp(degrees as int),
{
    let mut v: Vec<char> = Vec::new();
    if degrees < 0 {
        v.push('-');
        let mut d = dec_chars((-degrees) as u64);
        let ghost dv = d@;
        v.append(&mut d);
        proof {
            assert(v@ =~= seq!['-'] + dv);
        }
    } else {
        let mut d = dec_chars(degrees as u64);
        let ghost dv = d@;
        v.append(&mut d);
        proof {
            assert(v@ =~= dv);
        }
    }
    let ghost body = v@;
    v.push('°');
    v.push('C');
    proof {
        assert(v@ =~= body + seq!['°', 'C']);
    }
    v
}

/// Formats a whole-degree reading with the Celsius unit suffix.
pub fn format_temp(degrees: i64) -> (s: String)
    requires
        degrees > i64::MIN,
    ensures
        s@ == spec_format_temp(degrees as int),
{
    let v = temp_chars(degrees);
    chars_to_string(&v)
}

/// The degrees, if any, that the temperature sampler would display.
pub open spec fn spec_temp_display(t: TemperatureSampler) -> Option<int> {
    match t.data {
        Some(m) => Some(TemperatureSampler::spec_degrees(m as int)),
        None => None,
    }
}

/// One tick's output: the status line when the load window is defined,
/// `None` when the tick is skipped because no kernel time elapsed
/// between the two retained readings (or they are inconsistent).
pub fn tick_output(load: &LoadSampler, temp: &TemperatureSampler) -> (r: Option<String>)
    requires
        temp.wf(),
    ensures
        spec_window_defined(load.previous, load.current) ==> (r matches Some(s) && s@
            == spec_status_line(
            spec_utilization(
                load.current.total_time - load.previous.total_time,
                load.current.idle_time - load.previous.idle_time,
            ) as nat,
            spec_temp_display(*temp),
        )),
        !spec_window_defined(load.previous, load.current) ==> r is None,
{
    let p = match load.utilization_percent() {
        Some(p) => p,
        None => {
            return None;
        },
    };
    proof {
        lemma_utilization_in_range(
            load.current.total_time - load.previous.total_time,
            load.current.idle_time - load.previous.idle_time,
        );
    }
    let mut line = percent_chars(p);
    let ghost pp = line@;
    line.push(' ');
    match temp.in_degree_c() {
        Some(d) => {
            let mut t = temp_chars(d);
            let ghost tv = t@;
            line.append(&mut t);
            proof {
                assert(line@ =~= pp + seq![' '] + tv);
            }
        },
        None => {
            line.push('N');
            line.push('/');
            line.push('A');
            line.push('°');
            line.push('C');
            proof {
                assert(line@ =~= pp + seq![' '] + spec_no_reading());
            }
        },
    }
    Some(chars_to_string(&line))
}

} // verus!
