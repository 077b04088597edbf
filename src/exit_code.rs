//! Reading the status argument of `exit` as a signed 32-bit decimal.
use vstd::prelude::*;
use crate::text::chars_of;

verus! {

pub open spec fn is_digit(c: char) -> bool {
    '0' <= c && c <= '9'
}

pub open spec fn all_digits(ds: Seq<char>) -> bool {
    forall|k: int| 0 <= k < ds.len() ==> is_digit(#[trigger] ds[k])
}

/// The value of a digit character.
pub open spec fn digit_value(c: char) -> int {
    c as u32 as int - 48
}

/// The value of a string of decimal digits, most significant first.
pub open spec fn decimal(ds: Seq<char>) -> int
    decreases ds.len(),
{
    if ds.len() == 0 {
        0
    } else {
        decimal(ds.drop_last()) * 10 + digit_value(ds.last())
    }
}

/// The value of the digits `ds`, negated when `neg`, if they are one or more ASCII
/// digits and the value fits in an `i32`.
pub open spec fn signed_value(neg: bool, ds: Seq<char>) -> Option<i32> {
    let v = if neg {
        -decimal(ds)
    } else {
        decimal(ds)
    };
    if ds.len() > 0 && all_digits(ds) && i32::MIN <= v <= i32::MAX {
        Some(v as i32)
    } else {
        None
    }
}

/// The status that `s` names: an optional `+` or `-`, then one or more ASCII digits,
/// with a value that fits in an `i32`; `None` for anything else.
pub open spec fn exit_code_of(s: Seq<char>) -> Option<i32> {
    if s.len() > 0 && s[0] == '-' {
        signed_value(true, s.drop_first())
    } else if s.len() > 0 && s[0] == '+' {
        signed_value(false, s.drop_first())
    } else {
        signed_value(false, s)
    }
}

proof fn lemma_decimal_grows(ds: Seq<char>, m: int)
    requires
        all_digits(ds),
        0 <= m <= ds.len(),
    ensures
        decimal(ds) >= decimal(ds.take(m)) >= 0,
    decreases ds.len(),
{
    if m == ds.len() {
        assert(ds.take(m) =~= ds);
        if ds.len() > 0 {
            lemma_decimal_grows(ds.drop_last(), m - 1);
            assert(ds.drop_last().take(m - 1) =~= ds.drop_last());
        }
    } else {
        assert(ds.drop_last().take(m) =~= ds.take(m));
        lemma_decimal_grows(ds.drop_last(), m);
    }
}

/// Parses the status argument of `exit`.
pub fn parse_exit_code(s: &str) -> (r: Option<i32>)
    ensures
        r == exit_code_of(s@),
{
    let cs = chars_of(s);
    let n = cs.len();
    if n == 0 {
        return None;
    }
    let neg = cs[0] == '-';
    let start: usize = if cs[0] == '-' || cs[0] == '+' {
        1
    } else {
        0
    };
    let ghost ds = cs@.skip(start as int);
    proof {
        if start == 1 {
            assert(ds =~= cs@.drop_first());
        } else {
            assert(ds =~= cs@);
        }
    }
    if start == n {
        return None;
    }
    let mut v: i64 = 0;
    let mut i = start;
    while i < n
        invariant
            start <= i <= n == cs@.len(),
            ds == cs@.skip(start as int),
            exit_code_of(s@) == signed_value(neg, ds),
            v == decimal(ds.take(i - start)),
            0 <= v <= 2147483648,
            all_digits(ds.take(i - start)),
        decreases n - i,
    {
        let c = cs[i];
        if !('0' <= c && c <= '9') {
            proof {
                assert(!is_digit(ds[i - start]));

            }
            return None;
        }
        let d = (c as u32 - 48) as i64;
        let nv = v * 10 + d;
        proof {
            let p = ds.take(i - start + 1);
            assert(p.drop_last() =~= ds.take(i - start));
            assert(p.last() == c);
            assert(all_digits(p));
            assert(nv == decimal(p));
        }
        if nv > 2147483648 {
            proof {
                if all_digits(ds) {
                    lemma_decimal_grows(ds, i - start + 1);
                }
            }
            return None;
        }
        v = nv;
        i = i + 1;
    }
    proof {
        assert(ds.take(n - start) =~= ds);
    }
    if neg {
        Some((-v) as i32)
    } else if v <= 2147483647 {
        Some(v as i32)
    } else {
        None
    }
}

} // verus!
