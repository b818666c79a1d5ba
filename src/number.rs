use vstd::prelude::*;

verus! {

pub open spec fn is_digit(c: char) -> bool {
    '0' <= c && c <= '9'
}

/// Where a reader of a decimal real number stands after a prefix of it.
#[derive(Debug, Clone, Copy, PartialEq, Eq, Structural)]
pub enum RealState {
    Start,
    Sign,
    Int,
    DotAfterInt,
    LeadingDot,
    Frac,
    ExpMark,
    ExpSign,
    ExpDigits,
    Reject,
}

/// One step of the reader of `[+-] digits [. digits] [(e|E) [+-] digits]`,
/// where the mantissa has at least one digit before or after the point.
pub open spec fn real_step(st: RealState, c: char) -> RealState {
    let sign = c == '+' || c == '-';
    let exp = c == 'e' || c == 'E';
    match st {
        RealState::Start => if sign {
            RealState::Sign
        } else if is_digit(c) {
            RealState::Int
        } else if c == '.' {
            RealState::LeadingDot
        } else {
            RealState::Reject
        },
        RealState::Sign => if is_digit(c) {
            RealState::Int
        } else if c == '.' {
            RealState::LeadingDot
        } else {
            RealState::Reject
        },
        RealState::Int => if is_digit(c) {
            RealState::Int
        } else if c == '.' {
            RealState::DotAfterInt
        } else if exp {
            RealState::ExpMark
        } else {
            RealState::Reject
        },
        RealState::DotAfterInt | RealState::Frac => if is_digit(c) {
            RealState::Frac
        } else if exp {
            RealState::ExpMark
        } else {
            RealState::Reject
        },
        RealState::LeadingDot => if is_digit(c) {
            RealState::Frac
        } else {
            RealState::Reject
        },
        RealState::ExpMark => if sign {
            RealState::ExpSign
        } else if is_digit(c) {
            RealState::ExpDigits
        } else {
            RealState::Reject
        },
        RealState::ExpSign | RealState::ExpDigits => if is_digit(c) {
            RealState::ExpDigits
        } else {
            RealState::Reject
        },
        RealState::Reject => RealState::Reject,
    }
}

/// The reader's state after all of `t`.
pub open spec fn real_state(t: Seq<char>) -> RealState
    decreases t.len(),
{
    if t.len() == 0 {
        RealState::Start
    } else {
        real_step(real_state(t.drop_last()), t.last())
    }
}

/// Whether `t` is a decimal number: an optional sign, digits with an
/// optional decimal point (at least one digit in all), and an optional
/// exponent of `e` or `E`, an optional sign and digits.
pub open spec fn is_decimal(t: Seq<char>) -> bool {
    let st = real_state(t);
    st == RealState::Int || st == RealState::DotAfterInt || st == RealState::Frac || st
        == RealState::ExpDigits
}

/// The upper-case form of the letters that the special number words use.
pub open spec fn upper(l: char) -> char {
    if l == 'a' {
        'A'
    } else if l == 'f' {
        'F'
    } else if l == 'i' {
        'I'
    } else if l == 'n' {
        'N'
    } else if l == 't' {
        'T'
    } else if l == 'y' {
        'Y'
    } else {
        l
    }
}

/// Whether `c` is the letter `l` in either case.
pub open spec fn same_letter(c: char, l: char) -> bool {
    c == l || c == upper(l)
}

fn upper_of(l: char) -> (r: char)
    ensures
        r == upper(l),
{
    if l == 'a' {
        'A'
    } else if l == 'f' {
        'F'
    } else if l == 'i' {
        'I'
    } else if l == 'n' {
        'N'
    } else if l == 't' {
        'T'
    } else if l == 'y' {
        'Y'
    } else {
        l
    }
}

/// Whether `u` spells the lower-case word `w` in any letter case.
pub open spec fn spells(u: Seq<char>, w: Seq<char>) -> bool {
    u.len() == w.len() && forall|i: int| 0 <= i < u.len() ==> same_letter(#[trigger] u[i], w[i])
}

/// Whether `u` names an infinity or not-a-number: `inf`, `infinity` or
/// `nan`, in any letter case.
pub open spec fn is_special(u: Seq<char>) -> bool {
    spells(u, seq!['i', 'n', 'f']) || spells(u, seq!['i', 'n', 'f', 'i', 'n', 'i', 't', 'y'])
        || spells(u, seq!['n', 'a', 'n'])
}

/// Whether `t` is a floating-point number: a decimal number, or an
/// optional sign followed by `inf`, `infinity` or `nan` in any letter case.
pub open spec fn is_real(t: Seq<char>) -> bool {
    is_decimal(t) || is_special(unsigned_part(t))
}

fn next_real_state(st: RealState, c: char) -> (r: RealState)
    ensures
        r == real_step(st, c),
{
    let sign = c == '+' || c == '-';
    let exp = c == 'e' || c == 'E';
    let digit = '0' <= c && c <= '9';
    match st {
        RealState::Start => if sign {
            RealState::Sign
        } else if digit {
            RealState::Int
        } else if c == '.' {
            RealState::LeadingDot
        } else {
            RealState::Reject
        },
        RealState::Sign => if digit {
            RealState::Int
        } else if c == '.' {
            RealState::LeadingDot
        } else {
            RealState::Reject
        },
        RealState::Int => if digit {
            RealState::Int
        } else if c == '.' {
            RealState::DotAfterInt
        } else if exp {
            RealState::ExpMark
        } else {
            RealState::Reject
        },
        RealState::DotAfterInt | RealState::Frac => if digit {
            RealState::Frac
        } else if exp {
            RealState::ExpMark
        } else {
            RealState::Reject
        },
        RealState::LeadingDot => if digit {
            RealState::Frac
        } else {
            RealState::Reject
        },
        RealState::ExpMark => if sign {
            RealState::ExpSign
        } else if digit {
            RealState::ExpDigits
        } else {
            RealState::Reject
        },
        RealState::ExpSign | RealState::ExpDigits => if digit {
            RealState::ExpDigits
        } else {
            RealState::Reject
        },
        RealState::Reject => RealState::Reject,
    }
}

/// Whether `t` from position `start` on spells the lower-case word `w`
/// in any letter case.
fn spells_from(t: &[char], start: usize, w: &Vec<char>) -> (r: bool)
    requires
        start <= t@.len(),
    ensures
        r == spells(t@.skip(start as int), w@),
{
    let ghost u = t@.skip(start as int);
    if t.len() - start != w.len() {
        return false;
    }
    let mut i: usize = 0;
    while i < w.len()
        invariant
            u == t@.skip(start as int),
            u.len() == w@.len(),
            start + w@.len() == t@.len(),
            t@.len() <= usize::MAX,
            i <= w@.len(),
            forall|j: int| 0 <= j < i ==> same_letter(#[trigger] u[j], w@[j]),
        decreases w@.len() - i,
    {
        let c = t[start + i];
        let l = w[i];
        assert(u[i as int] == c);
        if !(c == l || c == upper_of(l)) {
            return false;
        }
        i = i + 1;
    }
    true
}

/// Whether a token is a decimal number.
fn is_decimal_token(t: &[char]) -> (r: bool)
    ensures
        r == is_decimal(t@),
{
    let mut st = RealState::Start;
    let mut i: usize = 0;
    while i < t.len()
        invariant
            i <= t@.len(),
            st == real_state(t@.take(i as int)),
        decreases t@.len() - i,
    {
        proof {
            assert(t@.take(i + 1).drop_last() =~= t@.take(i as int));
        }
        st = next_real_state(st, t[i]);
        i = i + 1;
    }
    proof {
        assert(t@.take(i as int) =~= t@);
    }
    st == RealState::Int || st == RealState::DotAfterInt || st == RealState::Frac || st
        == RealState::ExpDigits
}

/// Whether a token is a floating-point number: decimal, or a signed or
/// unsigned `inf`, `infinity` or `nan` in any letter case.
pub fn is_real_token(t: &[char]) -> (r: bool)
    ensures
        r == is_real(t@),
{
    if is_decimal_token(t) {
        return true;
    }
    let start: usize = if t.len() > 0 && (t[0] == '-' || t[0] == '+') {
        1
    } else {
        0
    };
    proof {
        assert(unsigned_part(t@) =~= t@.skip(start as int));
    }
    spells_from(t, start, &vec!['i', 'n', 'f']) || spells_from(
        t,
        start,
        &vec!['i', 'n', 'f', 'i', 'n', 'i', 't', 'y'],
    ) || spells_from(t, start, &vec!['n', 'a', 'n'])
}

pub open spec fn digit_value(c: char) -> int {
    c as int - '0' as int
}

/// The value of a run of decimal digits.
pub open spec fn digits_value(ds: Seq<char>) -> int
    decreases ds.len(),
{
    if ds.len() == 0 {
        0
    } else {
        10 * digits_value(ds.drop_last()) + digit_value(ds.last())
    }
}

pub open spec fn has_sign(t: Seq<char>) -> bool {
    t.len() > 0 && (t[0] == '-' || t[0] == '+')
}

/// The digits of an integer token, after its sign if it has one.
pub open spec fn unsigned_part(t: Seq<char>) -> Seq<char> {
    if has_sign(t) {
        t.drop_first()
    } else {
        t
    }
}

/// The value of an integer token: an optional sign and at least one digit.
pub open spec fn integer_value(t: Seq<char>) -> Option<int> {
    let ds = unsigned_part(t);
    if ds.len() > 0 && forall|i: int| 0 <= i < ds.len() ==> is_digit(#[trigger] ds[i]) {
        let v = digits_value(ds);
        Some(if t[0] == '-' { -v } else { v })
    } else {
        None
    }
}

/// The value of an integer token where it fits an `i64`.
pub open spec fn reference_of(t: Seq<char>) -> Option<i64> {
    match integer_value(t) {
        Some(v) => if i64::MIN <= v <= i64::MAX {
            Some(v as i64)
        } else {
            None
        },
        None => None,
    }
}

proof fn lemma_digits_nonneg(ds: Seq<char>)
    requires
        forall|i: int| 0 <= i < ds.len() ==> is_digit(#[trigger] ds[i]),
    ensures
        digits_value(ds) >= 0,
    decreases ds.len(),
{
    if ds.len() > 0 {
        lemma_digits_nonneg(ds.drop_last());
    }
}

/// Reads a signed decimal integer token, as an `i64`.
pub fn parse_reference(t: &[char]) -> (r: Option<i64>)
    ensures
        r == reference_of(t@),
{
    let limit: u64 = 9223372036854775808;
    let neg = t.len() > 0 && t[0] == '-';
    let start: usize = if t.len() > 0 && (t[0] == '-' || t[0] == '+') {
        1
    } else {
        0
    };
    let ghost ds = unsigned_part(t@);
    proof {
        assert(ds =~= t@.skip(start as int));
    }
    if start == t.len() {
        return None;
    }
    let mut mag: u64 = 0;
    let mut big = false;
    let mut i: usize = start;
    while i < t.len()
        invariant
            start <= i <= t@.len(),
            ds == t@.skip(start as int),
            ds == unsigned_part(t@),
            neg == (t@.len() > 0 && t@[0] == '-'),
            mag <= limit,
            limit == 9223372036854775808u64,
            forall|j: int| 0 <= j < i - start ==> is_digit(#[trigger] ds[j]),
            !big ==> mag as int == digits_value(ds.take(i - start)),
            big ==> digits_value(ds.take(i - start)) > limit,
        decreases t@.len() - i,
    {
        let c = t[i];
        if !('0' <= c && c <= '9') {
            proof {
                assert(!is_digit(ds[i - start]));
                assert(ds == unsigned_part(t@));
                assert(integer_value(t@) is None);
            }
            return None;
        }
        let d = (c as u32 - '0' as u32) as u64;
        let ghost k = i - start;
        proof {
            assert(ds[k] == c);
            assert(ds.take(k + 1).drop_last() =~= ds.take(k));
            assert(digits_value(ds.take(k + 1)) == 10 * digits_value(ds.take(k)) + d);
        }
        if !big {
            if mag <= (limit - d) / 10 {
                proof {
                    assert(mag * 10 + d <= limit) by (nonlinear_arith)
                        requires
                            mag <= (limit - d) / 10,
                            d <= 9,
                    ;
                }
                mag = mag * 10 + d;
            } else {
                proof {
                    assert(mag * 10 + d > limit) by (nonlinear_arith)
                        requires
                            mag > (limit - d) / 10,
                            d <= 9,
                    ;
                }
                big = true;
            }
        } else {
            proof {
                assert(10 * digits_value(ds.take(k)) + d > limit) by (nonlinear_arith)
                    requires
                        digits_value(ds.take(k)) > limit,
                        d <= 9,
                ;
            }
        }
        i = i + 1;
    }
    proof {
        assert(ds.take(i - start) =~= ds);
    }
    if big {
        return None;
    }
    if neg {
        if mag == limit {
            Some(i64::MIN)
        } else {
            Some(-(mag as i64))
        }
    } else if mag < limit {
        Some(mag as i64)
    } else {
        None
    }
}

} // verus!
