//! Byte-level parsing shared by the two samplers: splitting a counter
//! line into whitespace-separated tokens, reading decimal numerals, and
//! trimming surrounding whitespace.

use vstd::prelude::*;
use vstd::slice::slice_subrange;

verus! {

/// Returned when a counter line or a sensor reading is not in the
/// expected numeric format.
#[derive(Clone, Copy, PartialEq, Eq, Structural, Debug)]
pub struct ParseError;

/// A token separator inside a counter line: a space or a newline.
pub open spec fn is_sep(b: u8) -> bool {
    b == 32 || b == 10
}

/// ASCII whitespace as trimmed around a sensor reading.
pub open spec fn is_ws(b: u8) -> bool {
    b == 32 || b == 10 || b == 9 || b == 13
}

/// An ASCII decimal digit.
pub open spec fn is_digit(b: u8) -> bool {
    48 <= b <= 57
}

/// The numeric value of one ASCII digit.
pub open spec fn digit_val(b: u8) -> nat
    recommends
        is_digit(b),
{
    (b - 48) as nat
}

/// A non-empty, all-digit token.
pub open spec fn is_digits(t: Seq<u8>) -> bool {
    t.len() > 0 && (forall|i: int| 0 <= i < t.len() ==> is_digit(#[trigger] t[i]))
}

/// The value of a decimal numeral, most significant digit first.
pub open spec fn dec_value(t: Seq<u8>) -> nat
    recommends
        is_digits(t),
    decreases t.len(),
{
    if t.len() == 0 {
        0
    } else {
        dec_value(t.drop_last()) * 10 + digit_val(t.last())
    }
}

/// Splitting a byte sequence at every separator, keeping empty tokens,
/// as `split` on a single separator character does.
pub open spec fn spec_split(s: Seq<u8>) -> Seq<Seq<u8>>
    decreases s.len(),
{
    if s.len() == 0 {
        seq![Seq::<u8>::empty()]
    } else if is_sep(s[0]) {
        seq![Seq::<u8>::empty()] + spec_split(s.drop_first())
    } else {
        let rest = spec_split(s.drop_first());
        seq![seq![s[0]] + rest[0]] + rest.drop_first()
    }
}

/// A split always yields at least one token.
pub proof fn lemma_split_nonempty(s: Seq<u8>)
    ensures
        spec_split(s).len() >= 1,
    decreases s.len(),
{
    if s.len() == 0 {
    } else {
        lemma_split_nonempty(s.drop_first())
    }
}

/// The views of a sequence of byte vectors.
pub open spec fn views_of(ts: Seq<Vec<u8>>) -> Seq<Seq<u8>> {
    Seq::new(ts.len(), |i: int| ts[i]@)
}

/// Splits `s` at every space and newline, keeping empty tokens.
pub fn split_tokens(s: &[u8]) -> (toks: Vec<Vec<u8>>)
    ensures
        views_of(toks@) == spec_split(s@),
{
    let mut toks: Vec<Vec<u8>> = Vec::new();
    let mut cur: Vec<u8> = Vec::new();
    let mut i: usize = 0;
    proof {
        lemma_split_nonempty(s@);
        assert(s@.skip(0) =~= s@);
        assert(cur@ + spec_split(s@)[0] =~= spec_split(s@)[0]);
        let w = spec_split(s@.skip(0));
        assert(views_of(toks@).push(cur@ + w[0]) + w.drop_first() =~~= spec_split(s@));
    }
    while i < s.len()
        invariant
            0 <= i <= s@.len(),
            spec_split(s@.skip(i as int)).len() >= 1,
            (views_of(toks@).push(cur@ + spec_split(s@.skip(i as int))[0]) + spec_split(
                s@.skip(i as int),
            ).drop_first()) == spec_split(s@),
        decreases s@.len() - i,
    {
        let ghost rem = s@.skip(i as int);
        let ghost rem2 = s@.skip(i as int + 1);
        proof {
            lemma_split_nonempty(rem2);
            assert(rem[0] == s@[i as int]);
            assert(rem.drop_first() =~= rem2);
        }
        let b = s[i];
        if b == 32 || b == 10 {
            proof {
                assert(spec_split(rem) == seq![Seq::<u8>::empty()] + spec_split(rem2));
                assert(spec_split(rem)[0] =~= Seq::<u8>::empty());
                assert(spec_split(rem).drop_first() =~= spec_split(rem2));
                assert(cur@ + Seq::<u8>::empty() =~= cur@);
            }
            let ghost old_toks = toks@;
            let ghost old_cur = cur@;
            toks.push(cur);
            cur = Vec::new();
            proof {
                assert(views_of(toks@) =~~= views_of(old_toks).push(old_cur));
                assert(cur@ + spec_split(rem2)[0] =~= spec_split(rem2)[0]);
                let lhs = views_of(toks@).push(cur@ + spec_split(rem2)[0]) + spec_split(
                    rem2,
                ).drop_first();
                let rhs = views_of(old_toks).push(old_cur + spec_split(rem)[0]) + spec_split(
                    rem,
                ).drop_first();
                assert(lhs =~~= rhs);
            }
        } else {
            proof {
                assert(!is_sep(rem[0]));
                let unfolded = seq![seq![rem[0]] + spec_split(rem2)[0]] + spec_split(
                    rem2,
                ).drop_first();
                assert(spec_split(rem) == unfolded);
                assert(spec_split(rem)[0] == seq![rem[0]] + spec_split(rem2)[0]);
                assert(spec_split(rem).drop_first() =~= spec_split(rem2).drop_first());
            }
            let ghost old_cur = cur@;
            cur.push(b);
            proof {
                assert(cur@ =~= old_cur + seq![b]);
                assert(cur@ + spec_split(rem2)[0] =~= old_cur + spec_split(rem)[0]);
            }
        }
        i = i + 1;
    }
    proof {
        assert(s@.skip(i as int) =~= Seq::<u8>::empty());
        assert(spec_split(s@.skip(i as int)) == seq![Seq::<u8>::empty()]);
        assert(cur@ + spec_split(s@.skip(i as int))[0] =~= cur@);
        assert(spec_split(s@.skip(i as int)).drop_first() =~= Seq::<Seq<u8>>::empty());
        assert(views_of(toks@).push(cur@) =~~= spec_split(s@));
    }
    let ghost old_toks = toks@;
    let ghost old_cur = cur@;
    toks.push(cur);
    proof {
        assert(views_of(toks@) =~~= views_of(old_toks).push(old_cur));
    }
    toks
}

/// Every prefix of a numeral is worth no more than the whole numeral.
pub proof fn lemma_dec_value_take_le(t: Seq<u8>, j: int)
    requires
        0 <= j <= t.len(),
    ensures
        dec_value(t.take(j)) <= dec_value(t),
    decreases t.len() - j,
{
    if j == t.len() {
        assert(t.take(j) =~= t);
    } else {
        lemma_dec_value_take_le(t, j + 1);
        assert(t.take(j + 1).drop_last() =~= t.take(j));
        assert(dec_value(t.take(j + 1)) == dec_value(t.take(j)) * 10 + digit_val(t.take(j + 1).last()));
    }
}

/// Reads a token as an unsigned decimal numeral. Returns `None` when
/// the token is empty, holds a non-digit byte, or encodes a value above
/// `u64::MAX`.
pub fn parse_u64(t: &[u8]) -> (r: Option<u64>)
    ensures
        (r matches Some(v) ==> is_digits(t@) && v == dec_value(t@) && dec_value(t@)
            <= u64::MAX),
        (r is None ==> !is_digits(t@) || dec_value(t@) > u64::MAX),
    {
    if t.len() == 0 {
        return None;
    }
    let mut acc: u64 = 0;
    let mut i: usize = 0;
    while i < t.len()
        invariant
            0 <= i <= t@.len(),
            t@.len() > 0,
            forall|k: int| 0 <= k < i ==> is_digit(#[trigger] t@[k]),
            acc == dec_value(t@.take(i as int)),
        decreases t@.len() - i,
    {
        let b = t[i];
        if b < 48 || b > 57 {
            return None;
        }
        let d: u64 = (b - 48) as u64;
        let wide: u128 = acc as u128 * 10 + d as u128;
        proof {
            assert(t@.take(i as int + 1).drop_last() =~= t@.take(i as int));
            assert(dec_value(t@.take(i as int + 1)) == dec_value(t@.take(i as int)) * 10
                + digit_val(t@[i as int]));
        }
        if wide > 0xffff_ffff_ffff_ffffu128 {
            proof {
                lemma_dec_value_take_le(t@, i as int + 1);
            }
            return None;
        }
        acc = wide as u64;
        i = i + 1;
    }
    proof {
        assert(t@.take(i as int) =~= t@);
    }
    Some(acc)
}

/// What is left of a byte sequence after leading whitespace is removed.
pub open spec fn trim_front(s: Seq<u8>) -> Seq<u8>
    decreases s.len(),
{
    if s.len() > 0 && is_ws(s[0]) {
        trim_front(s.drop_first())
    } else {
        s
    }
}

/// What is left of a byte sequence after trailing whitespace is removed.
pub open spec fn trim_back(s: Seq<u8>) -> Seq<u8>
    decreases s.len(),
{
    if s.len() > 0 && is_ws(s.last()) {
        trim_back(s.drop_last())
    } else {
        s
    }
}

/// A byte sequence with whitespace removed from both ends.
pub open spec fn spec_trim(s: Seq<u8>) -> Seq<u8> {
    trim_back(trim_front(s))
}

/// Decides `is_ws` on one byte.
fn ws_byte(b: u8) -> (r: bool)
    ensures
        r == is_ws(b),
{
    b == 32 || b == 10 || b == 9 || b == 13
}

/// Returns the slice of `s` with whitespace removed from both ends.
pub fn trim_bytes(s: &[u8]) -> (r: &[u8])
    ensures
        r@ == spec_trim(s@),
{
    let mut lo: usize = 0;
    proof {
        assert(s@.skip(0) =~= s@);
    }
    while lo < s.len() && ws_byte(s[lo])
        invariant
            0 <= lo <= s@.len(),
            trim_front(s@) == trim_front(s@.skip(lo as int)),
        decreases s@.len() - lo,
    {
        proof {
            assert(s@.skip(lo as int)[0] == s@[lo as int]);
            assert(s@.skip(lo as int).drop_first() =~= s@.skip(lo as int + 1));
        }
        lo = lo + 1;
    }
    proof {
        assert(trim_front(s@) == s@.skip(lo as int));
    }
    let ghost t = trim_front(s@);
    let mut hi: usize = s.len();
    proof {
        assert(s@.skip(lo as int).take(hi - lo as int) =~= s@.skip(lo as int));
    }
    while hi > lo && ws_byte(s[hi - 1])
        invariant
            0 <= lo <= hi <= s@.len(),
            trim_front(s@) == s@.skip(lo as int),
            trim_back(t) == trim_back(t.take(hi - lo as int)),
            t == s@.skip(lo as int),
        decreases hi,
    {
        proof {
            assert(t.take(hi - lo as int).last() == s@[hi as int - 1]);
            assert(t.take(hi - lo as int).drop_last() =~= t.take(hi - 1 - lo as int));
        }
        hi = hi - 1;
    }
    proof {
        assert(trim_back(t.take(hi - lo as int)) == t.take(hi - lo as int));
        assert(t.take(hi - lo as int) =~= s@.subrange(lo as int, hi as int));
    }
    slice_subrange(s, lo, hi)
}

} // verus!
