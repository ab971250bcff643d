//! Decimal fields of an address. A field that is not a well-formed decimal
//! number, or whose value does not fit, reads as zero.
use vstd::prelude::*;

verus! {

pub open spec fn is_digit(b: u8) -> bool {
    48 <= b <= 57
}

/// The value of a run of decimal digits, or `None` if a byte is not a digit
/// or the value leaves the `u64` range.
pub open spec fn decimal_value(s: Seq<u8>) -> Option<u64>
    decreases s.len(),
{
    if s.len() == 0 {
        Some(0)
    } else {
        match decimal_value(s.drop_last()) {
            Some(v) => if is_digit(s.last()) && v * 10 + (s.last() - 48) <= u64::MAX {
                Some((v * 10 + (s.last() - 48)) as u64)
            } else {
                None
            },
            None => None,
        }
    }
}

/// An unsigned field: its decimal value, or zero when empty or malformed.
pub open spec fn unsigned_field(s: Seq<u8>) -> u64 {
    if s.len() > 0 {
        match decimal_value(s) {
            Some(v) => v,
            None => 0,
        }
    } else {
        0
    }
}

/// A signed field: an optional leading `-` and decimal digits; zero when
/// empty, malformed, or outside the `i64` range.
pub open spec fn signed_field(s: Seq<u8>) -> i64 {
    if s.len() > 0 && s[0] == 45 {
        let digits = s.skip(1);
        if digits.len() > 0 {
            match decimal_value(digits) {
                Some(v) => if v <= 0x8000_0000_0000_0000u64 {
                    (-(v as int)) as i64
                } else {
                    0
                },
                None => 0,
            }
        } else {
            0
        }
    } else {
        let u = unsigned_field(s);
        if u <= i64::MAX {
            u as i64
        } else {
            0
        }
    }
}

/// Value of the digits `s[start..end)`, if all are digits and it fits.
pub fn decimal_of(s: &[u8], start: usize, end: usize) -> (r: Option<u64>)
    requires
        start <= end <= s@.len(),
    ensures
        r == decimal_value(s@.subrange(start as int, end as int)),
{
    let mut acc: u64 = 0;
    let mut i: usize = start;
    while i < end
        invariant
            start <= i <= end <= s@.len(),
            decimal_value(s@.subrange(start as int, i as int)) == Some(acc),
        decreases end - i,
    {
        let b = s[i];
        proof {
            let t = s@.subrange(start as int, i as int + 1);
            assert(t.drop_last() =~= s@.subrange(start as int, i as int));
            assert(t.last() == b);
        }
        if b < 48 || b > 57 {
            proof {
                lemma_decimal_none_extends(s@, start as int, i as int + 1, end as int);
            }
            return None;
        }
        let d = (b - 48) as u64;
        if acc > (u64::MAX - d) / 10 {
            proof {
                assert(acc * 10 + d > u64::MAX) by (nonlinear_arith)
                    requires
                        acc > (u64::MAX - d) / 10,
                        d <= 9,
                ;
                lemma_decimal_none_extends(s@, start as int, i as int + 1, end as int);
            }
            return None;
        }
        proof {
            assert(acc * 10 + d <= u64::MAX) by (nonlinear_arith)
                requires
                    acc <= (u64::MAX - d) / 10,
                    d <= 9,
            ;
        }
        acc = acc * 10 + d;
        i = i + 1;
    }
    Some(acc)
}

proof fn lemma_decimal_none_extends(s: Seq<u8>, start: int, mid: int, end: int)
    requires
        0 <= start <= mid <= end <= s.len(),
        decimal_value(s.subrange(start, mid)) is None,
    ensures
        decimal_value(s.subrange(start, end)) is None,
    decreases end - mid,
{
    if end > mid {
        lemma_decimal_none_extends(s, start, mid, end - 1);
        assert(s.subrange(start, end).drop_last() =~= s.subrange(start, end - 1));
    }
}

/// Reads `s[start..end)` as an unsigned decimal field.
pub fn parse_unsigned(s: &[u8], start: usize, end: usize) -> (r: u64)
    requires
        start <= end <= s@.len(),
    ensures
        r == unsigned_field(s@.subrange(start as int, end as int)),
{
    if start == end {
        return 0;
    }
    match decimal_of(s, start, end) {
        Some(v) => v,
        None => 0,
    }
}

/// Reads `s[start..end)` as a signed decimal field.
pub fn parse_signed(s: &[u8], start: usize, end: usize) -> (r: i64)
    requires
        start <= end <= s@.len(),
    ensures
        r == signed_field(s@.subrange(start as int, end as int)),
{
    let ghost f = s@.subrange(start as int, end as int);
    if start < end && s[start] == 45 {
        assert(f.skip(1) =~= s@.subrange(start + 1, end as int));
        if start + 1 == end {
            return 0;
        }
        match decimal_of(s, start + 1, end) {
            Some(v) => if v <= 0x8000_0000_0000_0000u64 {
                if v == 0x8000_0000_0000_0000u64 {
                    i64::MIN
                } else {
                    -(v as i64)
                }
            } else {
                0
            },
            None => 0,
        }
    } else {
        let u = parse_unsigned(s, start, end);
        if u <= i64::MAX as u64 {
            u as i64
        } else {
            0
        }
    }
}

} // verus!
