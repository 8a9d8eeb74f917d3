//! Integers in the decimal grammar of Rust's `FromStr` for integer types.
use crate::text::chars_of;
use vstd::prelude::*;

verus! {

pub open spec fn is_digit(c: char) -> bool {
    '0' <= c && c <= '9'
}

/// The number that a string of decimal digits writes.
pub open spec fn digits_value(d: Seq<char>) -> nat
    decreases d.len(),
{
    if d.len() == 0 {
        0
    } else {
        digits_value(d.drop_last()) * 10 + (d.last() as nat - '0' as nat) as nat
    }
}

/// One or more decimal digits, and the number they write.
pub open spec fn digits_literal(d: Seq<char>) -> Option<int> {
    if d.len() > 0 && forall|i: int| 0 <= i < d.len() ==> is_digit(#[trigger] d[i]) {
        Some(digits_value(d) as int)
    } else {
        None
    }
}

/// The integer that `s` writes: an optional sign (`+`, or `-` where `signed`)
/// followed by one or more decimal digits.
pub open spec fn int_literal(s: Seq<char>, signed: bool) -> Option<int> {
    if s.len() > 0 && s[0] == '+' {
        digits_literal(s.drop_first())
    } else if signed && s.len() > 0 && s[0] == '-' {
        match digits_literal(s.drop_first()) {
            Some(v) => Some(-v),
            None => None,
        }
    } else {
        digits_literal(s)
    }
}

proof fn lemma_digits_value_grows(d: Seq<char>, k: int)
    requires
        0 <= k <= d.len(),
    ensures
        digits_value(d.take(k)) <= digits_value(d),
    decreases d.len(),
{
    if k < d.len() {
        assert(d.drop_last().take(k) =~= d.take(k));
        lemma_digits_value_grows(d.drop_last(), k);
    } else {
        assert(d.take(k) =~= d);
    }
}

/// The value of the digits `cs[from..]`, where it is at most `u128::MAX`.
fn digits_at(cs: &Vec<char>, from: usize) -> (r: Option<u128>)
    requires
        from <= cs.len(),
    ensures
        r matches Some(v) ==> digits_literal(cs@.skip(from as int)) == Some(v as int),
        r is None ==> !(digits_literal(cs@.skip(from as int)) matches Some(v) && v
            <= u128::MAX),
{
    let ghost d = cs@.skip(from as int);
    if from == cs.len() {
        return None;
    }
    let mut v: u128 = 0;
    let mut i = from;
    while i < cs.len()
        invariant
            from <= i <= cs.len(),
            d == cs@.skip(from as int),
            forall|k: int| 0 <= k < i - from ==> is_digit(#[trigger] d[k]),
            v as nat == digits_value(d.take(i - from)),
        decreases cs.len() - i,
    {
        let ghost t = d.take(i - from + 1);
        assert(t.drop_last() =~= d.take(i - from));
        assert(t.last() == cs@[i as int]);
        let c = cs[i];
        if !('0' <= c && c <= '9') {
            assert(!is_digit(d[i - from]));
            return None;
        }
        let h = (c as u32 - '0' as u32) as u128;
        assert(digits_value(t) == v * 10 + h);
        if v > (u128::MAX - h) / 10 {
            proof {
                lemma_digits_value_grows(d, i - from + 1);
                assert(v * 10 + h > u128::MAX) by (nonlinear_arith)
                    requires
                        v > (u128::MAX - h) / 10,
                        h <= 9,
                ;
            }
            return None;
        }
        assert(v * 10 + h <= u128::MAX) by (nonlinear_arith)
            requires
                v <= (u128::MAX - h) / 10,
                h <= 9,
        ;
        v = v * 10 + h;
        i = i + 1;
    }
    assert(d.take(cs.len() - from) =~= d);
    Some(v)
}

/// The sign and magnitude of `int_literal(s, signed)`, where the magnitude
/// is at most `u128::MAX`.
fn int_parts(s: &str, signed: bool) -> (r: Option<(bool, u128)>)
    ensures
        r matches Some((neg, m)) ==> int_literal(s@, signed) == Some(
            if neg {
                -(m as int)
            } else {
                m as int
            },
        ) && (neg ==> signed),
        r is None ==> !(int_literal(s@, signed) matches Some(v) && -u128::MAX <= v
            <= u128::MAX),
{
    let cs = chars_of(s);
    assert(cs@.skip(0) =~= cs@);
    if cs.len() > 0 && cs[0] == '+' {
        assert(cs@.skip(1) =~= s@.drop_first());
        match digits_at(&cs, 1) {
            Some(m) => Some((false, m)),
            None => None,
        }
    } else if signed && cs.len() > 0 && cs[0] == '-' {
        assert(cs@.skip(1) =~= s@.drop_first());
        match digits_at(&cs, 1) {
            Some(m) => Some((true, m)),
            None => None,
        }
    } else {
        match digits_at(&cs, 0) {
            Some(m) => Some((false, m)),
            None => None,
        }
    }
}

/// Parses a signed integer within `[min, max]`.
pub fn parse_signed(s: &str, min: i128, max: i128) -> (r: Option<i128>)
    ensures
        r == (match int_literal(s@, true) {
            Some(v) => if min <= v <= max {
                Some(v as i128)
            } else {
                None
            },
            None => None,
        }),
{
    match int_parts(s, true) {
        None => None,
        Some((neg, m)) => {
            if neg {
                if m > 0x8000_0000_0000_0000_0000_0000_0000_0000u128 {
                    return None;
                }
                let v: i128 = if m == 0x8000_0000_0000_0000_0000_0000_0000_0000u128 {
                    i128::MIN
                } else {
                    -(m as i128)
                };
                if min <= v && v <= max {
                    Some(v)
                } else {
                    None
                }
            } else {
                if m > i128::MAX as u128 {
                    return None;
                }
                let v = m as i128;
                if min <= v && v <= max {
                    Some(v)
                } else {
                    None
                }
            }
        },
    }
}

/// Parses an unsigned integer of at most `max`.
pub fn parse_unsigned(s: &str, max: u128) -> (r: Option<u128>)
    ensures
        r == (match int_literal(s@, false) {
            Some(v) => if 0 <= v <= max {
                Some(v as u128)
            } else {
                None
            },
            None => None,
        }),
{
    match int_parts(s, false) {
        None => None,
        Some((_, m)) => if m <= max {
            Some(m)
        } else {
            None
        },
    }
}

} // verus!
