//! Reading integers and decimal fractions out of character sequences.
use vstd::prelude::*;
use crate::text::{find, find_in, chars_of, starts_with};
use crate::types::DecimalSeconds;

verus! {

/// The value of `c` as a digit in base `radix` (10 or 16), if it is one.
pub open spec fn digit(c: char, radix: nat) -> Option<nat> {
    let n = c as u32;
    if 0x30 <= n && n <= 0x39 {
        Some((n - 0x30) as nat)
    } else if radix == 16 && 0x61 <= n && n <= 0x66 {
        Some((n - 0x61 + 10) as nat)
    } else if radix == 16 && 0x41 <= n && n <= 0x46 {
        Some((n - 0x41 + 10) as nat)
    } else {
        None
    }
}

pub open spec fn all_digits(s: Seq<char>, radix: nat) -> bool {
    forall|i: int| 0 <= i < s.len() ==> (#[trigger] digit(s[i], radix)) is Some
}

/// The number that the digits of `s` write in base `radix`.
pub open spec fn digits_value(s: Seq<char>, radix: nat) -> nat
    decreases s.len(),
{
    if s.len() == 0 {
        0
    } else {
        digits_value(s.drop_last(), radix) * radix + match digit(s.last(), radix) {
            Some(d) => d,
            None => 0,
        }
    }
}

/// An unsigned number of one or more digits in base `radix`, at most `bound`.
pub open spec fn magnitude(s: Seq<char>, radix: nat, bound: nat) -> Option<nat> {
    if s.len() > 0 && all_digits(s, radix) && digits_value(s, radix) <= bound {
        Some(digits_value(s, radix))
    } else {
        None
    }
}

pub open spec fn negated(o: Option<nat>) -> Option<int> {
    match o {
        Some(m) => Some(-m),
        None => None,
    }
}

pub open spec fn as_int(o: Option<nat>) -> Option<int> {
    match o {
        Some(m) => Some(m as int),
        None => None,
    }
}

/// A signed decimal integer in the range of `i64`, with an optional `+` or `-` sign.
pub open spec fn decimal_i64(s: Seq<char>) -> Option<int> {
    if s.len() > 0 && s[0] == '-' {
        negated(magnitude(s.drop_first(), 10, 0x8000_0000_0000_0000))
    } else if s.len() > 0 && s[0] == '+' {
        as_int(magnitude(s.drop_first(), 10, 0x7fff_ffff_ffff_ffff))
    } else {
        as_int(magnitude(s, 10, 0x7fff_ffff_ffff_ffff))
    }
}

/// A signed decimal integer in the range of `i32`.
pub open spec fn decimal_i32(s: Seq<char>) -> Option<int> {
    match decimal_i64(s) {
        Some(x) => if -0x8000_0000 <= x && x <= 0x7fff_ffff {
            Some(x)
        } else {
            None
        },
        None => None,
    }
}

/// A return value: `0x` and hexadecimal digits, `-0x` and hexadecimal digits
/// for a negative one, or else a signed decimal integer.
pub open spec fn return_value(s: Seq<char>) -> Option<int> {
    if starts_with(s, seq!['0', 'x']) {
        as_int(magnitude(s.skip(2), 16, 0x7fff_ffff_ffff_ffff))
    } else if starts_with(s, seq!['-', '0', 'x']) {
        negated(magnitude(s.skip(3), 16, 0x7fff_ffff_ffff_ffff))
    } else {
        decimal_i64(s)
    }
}

/// A duration in seconds: decimal digits with at most one `.` among them, at
/// least one digit, and a mantissa that fits in `u64`.
pub open spec fn decimal_seconds(s: Seq<char>) -> Option<DecimalSeconds> {
    let (ip, fp) = match find(s, "."@) {
        Some(d) => (s.take(d), s.skip(d + 1)),
        None => (s, Seq::<char>::empty()),
    };
    match magnitude(ip + fp, 10, 0xffff_ffff_ffff_ffff) {
        Some(m) => if fp.len() <= 0xffff_ffff {
            Some(DecimalSeconds { mantissa: m as u64, scale: fp.len() as u32 })
        } else {
            None
        },
        None => None,
    }
}

proof fn lemma_value_prefix(s: Seq<char>, j: int, radix: nat)
    requires
        0 <= j <= s.len(),
        radix >= 1,
    ensures
        digits_value(s.take(j), radix) <= digits_value(s, radix),
    decreases s.len(),
{
    if j < s.len() {
        assert(s.drop_last().take(j) =~= s.take(j));
        lemma_value_prefix(s.drop_last(), j, radix);
        let a = digits_value(s.drop_last(), radix);
        assert(a * radix >= a) by (nonlinear_arith)
            requires
                radix >= 1,
        ;
    } else {
        assert(s.take(j) =~= s);
    }
}

pub fn digit_of(c: char, radix: u32) -> (r: Option<u32>)
    requires
        radix == 10 || radix == 16,
    ensures
        match digit(c, radix as nat) {
            Some(d) => r == Some(d as u32),
            None => r is None,
        },
{
    let n = c as u32;
    if 0x30 <= n && n <= 0x39 {
        Some(n - 0x30)
    } else if radix == 16 && 0x61 <= n && n <= 0x66 {
        Some(n - 0x61 + 10)
    } else if radix == 16 && 0x41 <= n && n <= 0x46 {
        Some(n - 0x41 + 10)
    } else {
        None
    }
}

/// Reads `v[lo..hi]` as an unsigned number in base `radix` that is at most `bound`.
pub fn parse_magnitude(v: &Vec<char>, lo: usize, hi: usize, radix: u32, bound: u64) -> (r: Option<
    u64,
>)
    requires
        lo <= hi <= v.len(),
        radix == 10 || radix == 16,
    ensures
        match magnitude(v@.subrange(lo as int, hi as int), radix as nat, bound as nat) {
            Some(m) => r == Some(m as u64),
            None => r is None,
        },
{
    let ghost s = v@.subrange(lo as int, hi as int);
    if lo == hi {
        return None;
    }
    let mut acc: u64 = 0;
    let mut i = lo;
    while i < hi
        invariant
            lo <= i <= hi <= v.len(),
            s == v@.subrange(lo as int, hi as int),
            radix == 10 || radix == 16,
            all_digits(s.take(i - lo), radix as nat),
            acc as nat == digits_value(s.take(i - lo), radix as nat),
            acc <= bound,
        decreases hi - i,
    {
        let k: Ghost<int> = Ghost(i - lo);
        assert(s.take(k@ + 1).drop_last() =~= s.take(k@));
        assert(s.take(k@ + 1).last() == v@[i as int]);
        let d = match digit_of(v[i], radix) {
            Some(d) => d,
            None => {
                assert(digit(s[k@], radix as nat) is None);
                return None;
            },
        };
        assert(all_digits(s.take(k@ + 1), radix as nat)) by {
            assert forall|j: int| 0 <= j < k@ + 1 implies (#[trigger] digit(
                s.take(k@ + 1)[j],
                radix as nat,
            )) is Some by {
                if j < k@ {
                    assert(s.take(k@ + 1)[j] == s.take(k@)[j]);
                }
            }
        }
        let q = bound / (radix as u64);
        if acc > q {
            proof {
                assert(acc * radix + d > bound) by (nonlinear_arith)
                    requires
                        acc > q,
                        q == bound / (radix as u64),
                        radix > 0,
                ;
                if all_digits(s, radix as nat) {
                    lemma_value_prefix(s, k@ + 1, radix as nat);
                }
            }
            return None;
        }
        assert(acc * radix <= bound) by (nonlinear_arith)
            requires
                acc <= q,
                q == bound / (radix as u64),
                radix > 0,
        ;
        let m = acc * (radix as u64);
        if (d as u64) > bound - m {
            proof {
                if all_digits(s, radix as nat) {
                    lemma_value_prefix(s, k@ + 1, radix as nat);
                }
            }
            return None;
        }
        acc = m + (d as u64);
        i = i + 1;
    }
    assert(s.take(hi - lo) =~= s);
    Some(acc)
}

/// Reads `v[lo..hi]` as a signed decimal `i64`.
pub fn parse_decimal_i64(v: &Vec<char>, lo: usize, hi: usize) -> (r: Option<i64>)
    requires
        lo <= hi <= v.len(),
    ensures
        crate::types::opt_i64(r) == decimal_i64(v@.subrange(lo as int, hi as int)),
{
    let ghost s = v@.subrange(lo as int, hi as int);
    if lo < hi && v[lo] == '-' {
        assert(s.drop_first() =~= v@.subrange(lo + 1, hi as int));
        match parse_magnitude(v, lo + 1, hi, 10, 0x8000_0000_0000_0000) {
            Some(m) => {
                if m == 0x8000_0000_0000_0000 {
                    Some(i64::MIN)
                } else {
                    Some(-(m as i64))
                }
            },
            None => None,
        }
    } else if lo < hi && v[lo] == '+' {
        assert(s.drop_first() =~= v@.subrange(lo + 1, hi as int));
        match parse_magnitude(v, lo + 1, hi, 10, 0x7fff_ffff_ffff_ffff) {
            Some(m) => Some(m as i64),
            None => None,
        }
    } else {
        match parse_magnitude(v, lo, hi, 10, 0x7fff_ffff_ffff_ffff) {
            Some(m) => Some(m as i64),
            None => None,
        }
    }
}

/// Reads `v[lo..hi]` as a return value: hexadecimal after `0x` or `-0x`, else decimal.
pub fn parse_return_value(v: &Vec<char>, lo: usize, hi: usize) -> (r: Option<i64>)
    requires
        lo <= hi <= v.len(),
    ensures
        crate::types::opt_i64(r) == return_value(v@.subrange(lo as int, hi as int)),
{
    let ghost s = v@.subrange(lo as int, hi as int);
    if hi - lo >= 2 && v[lo] == '0' && v[lo + 1] == 'x' {
        assert(s.take(2) =~= seq!['0', 'x']);
        assert(s.skip(2) =~= v@.subrange(lo + 2, hi as int));
        match parse_magnitude(v, lo + 2, hi, 16, 0x7fff_ffff_ffff_ffff) {
            Some(m) => Some(m as i64),
            None => None,
        }
    } else if hi - lo >= 3 && v[lo] == '-' && v[lo + 1] == '0' && v[lo + 2] == 'x' {
        assert(!starts_with(s, seq!['0', 'x'])) by {
            if starts_with(s, seq!['0', 'x']) {
                assert(s.take(2)[0] == '0');
            }
        }
        assert(s.take(3) =~= seq!['-', '0', 'x']);
        assert(s.skip(3) =~= v@.subrange(lo + 3, hi as int));
        match parse_magnitude(v, lo + 3, hi, 16, 0x7fff_ffff_ffff_ffff) {
            Some(m) => Some(-(m as i64)),
            None => None,
        }
    } else {
        assert(!starts_with(s, seq!['0', 'x'])) by {
            if starts_with(s, seq!['0', 'x']) {
                assert(s.take(2)[0] == '0' && s.take(2)[1] == 'x');
            }
        }
        assert(!starts_with(s, seq!['-', '0', 'x'])) by {
            if starts_with(s, seq!['-', '0', 'x']) {
                assert(s.take(3)[0] == '-' && s.take(3)[1] == '0' && s.take(3)[2] == 'x');
            }
        }
        parse_decimal_i64(v, lo, hi)
    }
}

/// Reads `v[lo..hi]` as a decimal number of seconds.
pub fn parse_seconds(v: &Vec<char>, lo: usize, hi: usize) -> (r: Option<DecimalSeconds>)
    requires
        lo <= hi <= v.len(),
    ensures
        r == decimal_seconds(v@.subrange(lo as int, hi as int)),
{
    let ghost s = v@.subrange(lo as int, hi as int);
    let dot = chars_of(".");
    proof {
        reveal_strlit(".");
        crate::text::lemma_find_bounds(s, "."@);
    }
    let found = find_in(v, lo, hi, &dot);
    let (int_end, frac_start) = match found {
        Some(d) => (d, d + 1),
        None => (hi, hi),
    };
    proof {
        if found is Some {
            assert(s.take(int_end - lo) =~= v@.subrange(lo as int, int_end as int));
            assert(s.skip(int_end - lo + 1) =~= v@.subrange(frac_start as int, hi as int));
        } else {
            assert(s =~= v@.subrange(lo as int, int_end as int));
            assert(Seq::<char>::empty() =~= v@.subrange(frac_start as int, hi as int));
        }
    }
    let mut digits: Vec<char> = Vec::new();
    let mut i = lo;
    while i < int_end
        invariant
            lo <= i <= int_end <= hi <= v.len(),
            digits@ == v@.subrange(lo as int, i as int),
        decreases int_end - i,
    {
        digits.push(v[i]);
        assert(v@.subrange(lo as int, i + 1) =~= v@.subrange(lo as int, i as int).push(v@[i as int]));
        i = i + 1;
    }
    let mut j = frac_start;
    while j < hi
        invariant
            lo <= int_end <= frac_start <= j <= hi <= v.len(),
            digits@ == v@.subrange(lo as int, int_end as int) + v@.subrange(frac_start as int, j as int),
        decreases hi - j,
    {
        digits.push(v[j]);
        assert(v@.subrange(frac_start as int, j + 1) =~= v@.subrange(frac_start as int, j as int).push(v@[j as int]));
        j = j + 1;
    }
    assert(digits@.subrange(0, digits.len() as int) =~= digits@);
    match parse_magnitude(&digits, 0, digits.len(), 10, 0xffff_ffff_ffff_ffff) {
        Some(m) => {
            if hi - frac_start <= 0xffff_ffff {
                Some(DecimalSeconds { mantissa: m, scale: (hi - frac_start) as u32 })
            } else {
                None
            }
        },
        None => None,
    }
}

} // verus!
