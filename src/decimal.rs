use vstd::prelude::*;

verus! {

pub open spec fn is_digit(c: char) -> bool {
    '0' <= c <= '9'
}

pub open spec fn all_digits(s: Seq<char>) -> bool {
    forall|i: int| 0 <= i < s.len() ==> is_digit(#[trigger] s[i])
}

/// The number written by the decimal digits `s`, most significant first.
pub open spec fn digits_value(s: Seq<char>) -> nat
    decreases s.len(),
{
    if s.len() == 0 {
        0
    } else {
        10 * digits_value(s.drop_last()) + (s.last() as int - '0' as int) as nat
    }
}

/// The integer that `str::parse` reads from `s`, before any range check:
/// an optional sign (`-` only where `signed`), then one or more decimal digits.
pub open spec fn parse_integer(s: Seq<char>, signed: bool) -> Option<int> {
    if s.len() >= 1 && (s[0] == '+' || (s[0] == '-' && signed)) {
        let d = s.skip(1);
        if d.len() > 0 && all_digits(d) {
            if s[0] == '-' {
                Some(-digits_value(d))
            } else {
                Some(digits_value(d) as int)
            }
        } else {
            None
        }
    } else if s.len() > 0 && all_digits(s) {
        Some(digits_value(s) as int)
    } else {
        None
    }
}

/// What parsing `s` as an integer type with the bounds `lo..=hi` gives.
pub open spec fn parse_bounded(s: Seq<char>, signed: bool, lo: int, hi: int) -> Option<int> {
    match parse_integer(s, signed) {
        Some(v) => if lo <= v <= hi {
            Some(v)
        } else {
            None
        },
        None => None,
    }
}

/// The value of the digits `cs[start..]`, if there is at least one, all are
/// digits, and the value is at most 2^64.
fn digits_from(cs: &[char], start: usize) -> (r: Option<u128>)
    requires
        start <= cs@.len(),
    ensures
        ({
            let d = cs@.skip(start as int);
            if d.len() > 0 && all_digits(d) && digits_value(d) <= 0x1_0000_0000_0000_0000 {
                r == Some(digits_value(d) as u128)
            } else {
                r is None
            }
        }),
{
    let ghost s = cs@;
    if start == cs.len() {
        return None;
    }
    let mut acc: u128 = 0;
    let mut big = false;
    let mut i = start;
    assert(s.subrange(start as int, start as int) =~= Seq::<char>::empty());
    while i < cs.len()
        invariant
            start <= i <= s.len(),
            s == cs@,
            all_digits(s.subrange(start as int, i as int)),
            !big ==> acc == digits_value(s.subrange(start as int, i as int)),
            !big ==> acc <= 0x1_0000_0000_0000_0000,
            big ==> digits_value(s.subrange(start as int, i as int)) > 0x1_0000_0000_0000_0000,
        decreases s.len() - i,
    {
        let c = cs[i];
        if c < '0' || c > '9' {
            assert(!all_digits(s.skip(start as int))) by {
                assert(s.skip(start as int)[i - start] == c);
            }
            return None;
        }
        let ghost prev = s.subrange(start as int, i as int);
        let ghost next = s.subrange(start as int, i + 1);
        assert(next.drop_last() =~= prev);
        assert(all_digits(next)) by {
            assert forall|k: int| 0 <= k < next.len() implies is_digit(#[trigger] next[k]) by {
                if k < prev.len() {
                    assert(next[k] == prev[k]);
                }
            }
        }
        let d = ((c as u32) - ('0' as u32)) as u128;
        if !big {
            acc = acc * 10 + d;
            if acc > 0x1_0000_0000_0000_0000 {
                big = true;
            }
        }
        i = i + 1;
    }
    assert(s.subrange(start as int, s.len() as int) =~= s.skip(start as int));
    if big {
        None
    } else {
        Some(acc)
    }
}

/// Parses `cs` as `str::parse` does for an integer type of bounds `lo..=hi`.
pub(crate) fn parse_integer_in(cs: &[char], signed: bool, lo: i128, hi: i128) -> (r: Option<i128>)
    requires
        -0x1_0000_0000_0000_0000 <= lo,
        hi <= 0x1_0000_0000_0000_0000,
    ensures
        match parse_bounded(cs@, signed, lo as int, hi as int) {
            Some(v) => r == Some(v as i128),
            None => r is None,
        },
{
    let ghost s = cs@;
    if cs.len() == 0 {
        return None;
    }
    let negative = cs[0] == '-' && signed;
    let start: usize = if cs[0] == '+' || negative {
        1
    } else {
        0
    };
    assert(s.skip(0) =~= s);
    match digits_from(cs, start) {
        None => None,
        Some(m) => {
            let v: i128 = if negative {
                -(m as i128)
            } else {
                m as i128
            };
            if lo <= v && v <= hi {
                Some(v)
            } else {
                None
            }
        },
    }
}

/// The decimal digit for `d < 10`.
pub open spec fn digit_char(d: nat) -> char {
    (d + '0' as int) as char
}

/// The decimal digits of `n`, most significant first, without leading zeros.
pub open spec fn digits_of(n: nat) -> Seq<char>
    decreases n,
{
    if n < 10 {
        seq![digit_char(n)]
    } else {
        digits_of(n / 10).push(digit_char(n % 10))
    }
}

/// `v` written in decimal, with a `-` before a negative value.
pub open spec fn decimal_text(v: int) -> Seq<char> {
    if v < 0 {
        seq!['-'] + digits_of((-v) as nat)
    } else {
        digits_of(v as nat)
    }
}

fn push_digits(out: &mut Vec<char>, n: u64)
    ensures
        final(out)@ == old(out)@ + digits_of(n as nat),
    decreases n,
{
    if n >= 10 {
        push_digits(out, n / 10);
    }
    let d: u8 = (n % 10) as u8;
    let c: char = (d + 48) as char;
    assert(c == digit_char((n % 10) as nat));
    out.push(c);
    proof {
        if n < 10 {
            assert(digits_of(n as nat) == seq![digit_char(n as nat)]);
        }
    }
    assert(out@ =~= old(out)@ + digits_of(n as nat));
}

/// Appends `v` in decimal to `out`.
pub(crate) fn push_decimal(out: &mut Vec<char>, v: i64)
    ensures
        final(out)@ == old(out)@ + decimal_text(v as int),
{
    if v < 0 {
        out.push('-');
        let m: u64 = (0 - (v as i128)) as u64;
        push_digits(out, m);
        assert(out@ =~= old(out)@ + decimal_text(v as int));
    } else {
        push_digits(out, v as u64);
    }
}

} // verus!
