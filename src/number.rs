use vstd::prelude::*;

verus! {

pub open spec fn is_digit(b: u8) -> bool {
    48 <= b <= 57
}

pub open spec fn all_digits(d: Seq<u8>) -> bool {
    forall|i: int| 0 <= i < d.len() ==> is_digit(#[trigger] d[i])
}

/// The number that a run of decimal digits denotes.
pub open spec fn digits_value(d: Seq<u8>) -> int
    decreases d.len(),
{
    if d.len() == 0 {
        0
    } else {
        digits_value(d.drop_last()) * 10 + (d.last() - 48)
    }
}

/// A non-negative decimal integer that fits in 64 bits: one or more digits,
/// with no sign and no spaces.
pub open spec fn decimal(d: Seq<u8>) -> Option<u64> {
    if d.len() > 0 && all_digits(d) && digits_value(d) <= u64::MAX {
        Some(digits_value(d) as u64)
    } else {
        None
    }
}

proof fn lemma_digits_value_grows(d: Seq<u8>, m: int)
    requires
        all_digits(d),
        0 <= m <= d.len(),
    ensures
        0 <= digits_value(d.take(m)) <= digits_value(d),
    decreases d.len(),
{
    if d.len() > 0 {
        assert(all_digits(d.drop_last()));
        if m < d.len() {
            lemma_digits_value_grows(d.drop_last(), m);
            assert(d.drop_last().take(m) =~= d.take(m));
        } else {
            assert(d.take(m) =~= d);
            lemma_digits_value_grows(d.drop_last(), 0);
        }
    } else {
        assert(d.take(m) =~= d);
    }
}

/// Reads `b[start..end]` as a decimal integer.
pub fn parse_decimal(b: &[u8], start: usize, end: usize) -> (r: Option<u64>)
    requires
        start <= end <= b@.len(),
    ensures
        r == decimal(b@.subrange(start as int, end as int)),
{
    let ghost d = b@.subrange(start as int, end as int);
    if start == end {
        return None;
    }
    let mut v: u64 = 0;
    let mut k: usize = start;
    while k < end
        invariant
            start <= k <= end <= b@.len(),
            d == b@.subrange(start as int, end as int),
            all_digits(d.take(k - start)),
            v == digits_value(d.take(k - start)),
        decreases end - k,
    {
        let c = b[k];
        if c < 48 || c > 57 {
            assert(!is_digit(d[k - start]));
            return None;
        }
        let digit: u64 = (c - 48) as u64;
        assert(d.take(k + 1 - start).drop_last() =~= d.take(k - start));
        if v > (u64::MAX - digit) / 10 {
            proof {
                if all_digits(d) {
                    lemma_digits_value_grows(d, k + 1 - start);
                }
            }
            return None;
        }
        assert(v * 10 + digit <= u64::MAX) by (nonlinear_arith)
            requires
                v <= (u64::MAX - digit) / 10,
                digit <= 9,
        ;
        v = v * 10 + digit;
        k = k + 1;
    }
    assert(d.take(k - start) =~= d);
    Some(v)
}

} // verus!
