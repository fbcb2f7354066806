use crate::text::{chars_views, slice_chars, spec_split, split_chars};
use vstd::prelude::*;

verus! {

pub open spec fn is_digit(c: char) -> bool {
    '0' <= c <= '9'
}

pub open spec fn digit_value(c: char) -> nat {
    (c as u32 - '0' as u32) as nat
}

pub open spec fn all_digits(s: Seq<char>) -> bool {
    forall|k: int| 0 <= k < s.len() ==> is_digit(#[trigger] s[k])
}

/// The number that a string of decimal digits spells.
pub open spec fn digits_value(s: Seq<char>) -> nat
    decreases s.len(),
{
    if s.len() == 0 {
        0
    } else {
        digits_value(s.drop_last()) * 10 + digit_value(s.last())
    }
}

/// `s` without one leading `'+'`.
pub open spec fn unsigned_body(s: Seq<char>) -> Seq<char> {
    if s.len() > 0 && s[0] == '+' {
        s.drop_first()
    } else {
        s
    }
}

/// An optional `'+'` and one or more decimal digits, read as a number of any size.
pub open spec fn spec_unsigned(s: Seq<char>) -> Option<nat> {
    let body = unsigned_body(s);
    if body.len() > 0 && all_digits(body) {
        Some(digits_value(body))
    } else {
        None
    }
}

/// `u32::from_str`: an optional `'+'`, one or more decimal digits, and a value that
/// fits.
pub open spec fn spec_parse_u32(s: Seq<char>) -> Option<u32> {
    match spec_unsigned(s) {
        Some(v) => if v <= u32::MAX {
            Some(v as u32)
        } else {
            None
        },
        None => None,
    }
}

pub open spec fn min_nat(a: nat, b: nat) -> nat {
    if a <= b {
        a
    } else {
        b
    }
}

/// A bound above every value the parsers need to tell apart.
pub const CAP: u64 = 0x100_0000_0000u64;

proof fn lemma_cap_step(v: nat, d: nat, base: nat, cap: nat)
    requires
        base >= 1,
    ensures
        min_nat(base * min_nat(v, cap) + min_nat(d, cap), cap) == min_nat(base * v + d, cap),
{
    if v >= cap {
        assert(base * v >= v) by (nonlinear_arith)
            requires
                base >= 1,
        ;
        assert(base * cap >= cap) by (nonlinear_arith)
            requires
                base >= 1,
        ;
    } else if d >= cap {
        assert(base * v >= 0) by (nonlinear_arith)
            requires
                base >= 1,
        ;
    }
}

/// Whether `s` is all digits, and the value they spell, capped at `CAP`.
pub fn digits_capped(s: &[char], from: usize) -> (r: (bool, u64))
    requires
        from <= s@.len(),
    ensures
        r.0 == all_digits(s@.skip(from as int)),
        r.0 ==> r.1 == min_nat(digits_value(s@.skip(from as int)), CAP as nat),
{
    let mut acc: u64 = 0;
    let mut i = from;
    while i < s.len()
        invariant
            from <= i <= s@.len(),
            all_digits(s@.subrange(from as int, i as int)),
            acc == min_nat(digits_value(s@.subrange(from as int, i as int)), CAP as nat),
        decreases s@.len() - i,
    {
        let c = s[i];
        if !('0' <= c && c <= '9') {
            proof {
                let t = s@.skip(from as int);
                assert(t[i - from] == c);
            }
            return (false, 0);
        }
        let d = (c as u32 - '0' as u32) as u64;
        proof {
            let p = s@.subrange(from as int, i as int);
            let q = s@.subrange(from as int, i + 1);
            assert(q.drop_last() =~= p);
            assert(q.last() == c);
            lemma_cap_step(digits_value(p), d as nat, 10, CAP as nat);
            assert(all_digits(q)) by {
                assert forall|k: int| 0 <= k < q.len() implies is_digit(#[trigger] q[k]) by {
                    if k < p.len() {
                        assert(q[k] == p[k]);
                    }
                }
            }
        }
        let next = acc * 10 + d;
        acc = if next < CAP {
            next
        } else {
            CAP
        };
        i += 1;
    }
    assert(s@.subrange(from as int, s@.len() as int) =~= s@.skip(from as int));
    (true, acc)
}

/// `spec_unsigned`, capped at `CAP`.
pub fn unsigned_capped(s: &[char]) -> (r: Option<u64>)
    ensures
        match spec_unsigned(s@) {
            Some(v) => r == Some(min_nat(v, CAP as nat) as u64),
            None => r is None,
        },
{
    let from: usize = if s.len() > 0 && s[0] == '+' {
        1
    } else {
        0
    };
    proof {
        if from == 1 {
            assert(s@.skip(1) =~= s@.drop_first());
        } else {
            assert(s@.skip(0) =~= s@);
        }
    }
    if from >= s.len() {
        return None;
    }
    let (ok, v) = digits_capped(s, from);
    if ok {
        Some(v)
    } else {
        None
    }
}

/// `u32::from_str` on characters.
pub fn parse_u32(s: &[char]) -> (r: Option<u32>)
    ensures
        r == spec_parse_u32(s@),
{
    match unsigned_capped(s) {
        Some(v) => if v <= 0xffff_ffffu64 {
            Some(v as u32)
        } else {
            None
        },
        None => None,
    }
}

/// A decimal number: an optional sign, then digits with at most one `'.'` among
/// them, and at least one digit. Gives whether it is negative, its whole digits and
/// its fraction digits.
pub open spec fn spec_decimal(s: Seq<char>) -> Option<(bool, Seq<char>, Seq<char>)> {
    let negative = s.len() > 0 && s[0] == '-';
    let body = if s.len() > 0 && (s[0] == '+' || s[0] == '-') {
        s.drop_first()
    } else {
        s
    };
    let pieces = spec_split(body, '.');
    if pieces.len() == 1 && pieces[0].len() > 0 && all_digits(pieces[0]) {
        Some((negative, pieces[0], seq![]))
    } else if pieces.len() == 2 && pieces[0].len() + pieces[1].len() > 0 && all_digits(pieces[0])
        && all_digits(pieces[1]) {
        Some((negative, pieces[0], pieces[1]))
    } else {
        None
    }
}

pub fn decimal_parts(s: &[char]) -> (r: Option<(bool, Vec<char>, Vec<char>)>)
    ensures
        match spec_decimal(s@) {
            Some((negative, whole, frac)) => r matches Some((n, w, f)) && n == negative && w@
                == whole && f@ == frac,
            None => r is None,
        },
{
    let negative = s.len() > 0 && s[0] == '-';
    let from: usize = if s.len() > 0 && (s[0] == '+' || s[0] == '-') {
        1
    } else {
        0
    };
    let body = crate::text::slice_chars(s, from, s.len());
    proof {
        if from == 1 {
            assert(body@ =~= s@.drop_first());
        } else {
            assert(body@ =~= s@);
        }
    }
    let mut pieces = split_chars(body.as_slice(), '.');
    let ghost views = chars_views(pieces@);
    assert(views.len() == pieces@.len());
    if pieces.len() == 1 {
        let whole = pieces.pop().unwrap();
        assert(whole@ == views[0]);
        let (ok, _) = digits_capped(whole.as_slice(), 0);
        assert(whole@.skip(0) =~= whole@);
        if whole.len() > 0 && ok {
            return Some((negative, whole, Vec::new()));
        }
        return None;
    }
    if pieces.len() == 2 {
        let frac = pieces.pop().unwrap();
        let whole = pieces.pop().unwrap();
        assert(whole@ == views[0]);
        assert(frac@ == views[1]);
        let (ok_whole, _) = digits_capped(whole.as_slice(), 0);
        let (ok_frac, _) = digits_capped(frac.as_slice(), 0);
        assert(whole@.skip(0) =~= whole@);
        assert(frac@.skip(0) =~= frac@);
        if (whole.len() > 0 || frac.len() > 0) && ok_whole && ok_frac {
            return Some((negative, whole, frac));
        }
        return None;
    }
    None
}

/// Fraction digit `i`, or 0 past the end.
pub open spec fn frac_digit(frac: Seq<char>, i: int) -> nat {
    if i < frac.len() {
        digit_value(frac[i])
    } else {
        0
    }
}

/// The whole thousandths in a fraction.
pub open spec fn frac_thousandths(frac: Seq<char>) -> nat {
    frac_digit(frac, 0) * 100 + frac_digit(frac, 1) * 10 + frac_digit(frac, 2)
}

/// Whether what lies below a thousandth is at least half of one.
pub open spec fn frac_rounds_up(frac: Seq<char>) -> bool {
    frac_digit(frac, 3) >= 5
}

/// Whether anything lies below a thousandth.
pub open spec fn frac_has_rest(frac: Seq<char>) -> bool {
    exists|j: int| 3 <= j < frac.len() && frac[j] != '0'
}

pub fn thousandths(frac: &[char]) -> (r: (u64, bool, bool))
    requires
        all_digits(frac@),
    ensures
        r.0 == frac_thousandths(frac@),
        r.1 == frac_rounds_up(frac@),
        r.2 == frac_has_rest(frac@),
{
    let d0: u64 = if frac.len() > 0 {
        (frac[0] as u32 - '0' as u32) as u64
    } else {
        0
    };
    let d1: u64 = if frac.len() > 1 {
        (frac[1] as u32 - '0' as u32) as u64
    } else {
        0
    };
    let d2: u64 = if frac.len() > 2 {
        (frac[2] as u32 - '0' as u32) as u64
    } else {
        0
    };
    let d3: u64 = if frac.len() > 3 {
        (frac[3] as u32 - '0' as u32) as u64
    } else {
        0
    };
    assert(frac.len() > 0 ==> is_digit(frac@[0]));
    assert(frac.len() > 1 ==> is_digit(frac@[1]));
    assert(frac.len() > 2 ==> is_digit(frac@[2]));
    let mut rest = false;
    let mut j: usize = 3;
    while j < frac.len()
        invariant
            3 <= j,
            j <= frac@.len() || frac@.len() < 3,
            rest == exists|k: int| 3 <= k < j && k < frac@.len() && frac@[k] != '0',
        decreases frac@.len() - j,
    {
        if frac[j] != '0' {
            rest = true;
        }
        j += 1;
    }
    (d0 * 100 + d1 * 10 + d2, d3 >= 5, rest)
}

pub open spec fn spec_decimal_digits(n: nat) -> Seq<char>
    decreases n,
{
    if n < 10 {
        seq![digit_char(n)]
    } else {
        spec_decimal_digits(n / 10).push(digit_char(n % 10))
    }
}

pub open spec fn digit_char(d: nat) -> char {
    ('0' as u32 + d) as char
}

fn push_decimal(out: &mut Vec<char>, n: u64)
    ensures
        final(out)@ == old(out)@ + spec_decimal_digits(n as nat),
    decreases n,
{
    if n >= 10 {
        push_decimal(out, n / 10);
    }
    let d = (n % 10) as u32;
    let c = char_from_digit(d);
    out.push(c);
    assert(final(out)@ =~= old(out)@ + spec_decimal_digits(n as nat));
}

pub(crate) fn char_from_digit(d: u32) -> (c: char)
    requires
        d < 16,
    ensures
        d < 10 ==> c == digit_char(d as nat),
        d >= 10 ==> c == ('a' as u32 + d - 10) as char,
{
    match d {
        0 => '0',
        1 => '1',
        2 => '2',
        3 => '3',
        4 => '4',
        5 => '5',
        6 => '6',
        7 => '7',
        8 => '8',
        9 => '9',
        10 => 'a',
        11 => 'b',
        12 => 'c',
        13 => 'd',
        14 => 'e',
        _ => 'f',
    }
}

/// The decimal digits of `n`, as `to_string` writes it.
pub fn decimal_chars(n: u64) -> (r: Vec<char>)
    ensures
        r@ == spec_decimal_digits(n as nat),
{
    let mut out: Vec<char> = Vec::new();
    push_decimal(&mut out, n);
    assert(out@ =~= spec_decimal_digits(n as nat));
    out
}

/// A signed number as `to_string` writes it.
pub open spec fn spec_signed_digits(n: int) -> Seq<char> {
    if n < 0 {
        seq!['-'] + spec_decimal_digits((-n) as nat)
    } else {
        spec_decimal_digits(n as nat)
    }
}

pub fn signed_chars(n: i64) -> (r: Vec<char>)
    ensures
        r@ == spec_signed_digits(n as int),
{
    if n < 0 {
        let magnitude: u64 = if n == i64::MIN {
            0x8000_0000_0000_0000u64
        } else {
            (-n) as u64
        };
        let mut out: Vec<char> = Vec::new();
        out.push('-');
        push_decimal(&mut out, magnitude);
        assert(out@ =~= spec_signed_digits(n as int));
        out
    } else {
        decimal_chars(n as u64)
    }
}

pub open spec fn hex_char(d: nat) -> char {
    if d < 10 {
        digit_char(d)
    } else {
        ('a' as u32 + d - 10) as char
    }
}

/// The lowest `width` hexadecimal digits of `n`, lowercase, zero-padded.
pub open spec fn spec_hex(n: nat, width: nat) -> Seq<char>
    decreases width,
{
    if width == 0 {
        seq![]
    } else {
        spec_hex(n / 16, (width - 1) as nat).push(hex_char(n % 16))
    }
}

fn push_hex(out: &mut Vec<char>, n: u64, width: u32)
    ensures
        final(out)@ == old(out)@ + spec_hex(n as nat, width as nat),
    decreases width,
{
    if width > 0 {
        push_hex(out, n / 16, width - 1);
        let d = (n % 16) as u32;
        let c = char_from_digit(d);
        out.push(c);
        assert(final(out)@ =~= old(out)@ + spec_hex(n as nat, width as nat));
    } else {
        assert(final(out)@ =~= old(out)@ + spec_hex(n as nat, width as nat));
    }
}

/// `format!("{:0width$x}", n)` for a `width` that holds every digit of `n`.
pub fn hex_chars(n: u64, width: u32) -> (r: Vec<char>)
    ensures
        r@ == spec_hex(n as nat, width as nat),
{
    let mut out: Vec<char> = Vec::new();
    push_hex(&mut out, n, width);
    assert(out@ =~= spec_hex(n as nat, width as nat));
    out
}


/// `u64::from_str`: an optional `'+'`, one or more decimal digits, and a value that
/// fits.
pub open spec fn spec_parse_u64(s: Seq<char>) -> Option<u64> {
    match spec_unsigned(s) {
        Some(v) => if v <= u64::MAX {
            Some(v as u64)
        } else {
            None
        },
        None => None,
    }
}

/// `u64::from_str` on characters.
pub fn parse_u64(s: &[char]) -> (r: Option<u64>)
    ensures
        r == spec_parse_u64(s@),
{
    let from: usize = if s.len() > 0 && s[0] == '+' {
        1
    } else {
        0
    };
    proof {
        if from == 1 {
            assert(s@.skip(1) =~= s@.drop_first());
        } else {
            assert(s@.skip(0) =~= s@);
        }
    }
    if from >= s.len() {
        return None;
    }
    let cap: u128 = 0x1_0000_0000_0000_0000u128;
    let mut acc: u128 = 0;
    let mut i = from;
    while i < s.len()
        invariant
            from <= i <= s@.len(),
            cap == 0x1_0000_0000_0000_0000u128,
            unsigned_body(s@) == s@.skip(from as int),
            from < s@.len(),
            all_digits(s@.subrange(from as int, i as int)),
            acc == min_nat(digits_value(s@.subrange(from as int, i as int)), cap as nat),
        decreases s@.len() - i,
    {
        let c = s[i];
        if !('0' <= c && c <= '9') {
            proof {
                let t = s@.skip(from as int);
                assert(t[i - from] == c);
            }
            return None;
        }
        let d = (c as u32 - '0' as u32) as u128;
        proof {
            let p = s@.subrange(from as int, i as int);
            let q = s@.subrange(from as int, i + 1);
            assert(q.drop_last() =~= p);
            assert(q.last() == c);
            lemma_cap_step(digits_value(p), d as nat, 10, cap as nat);
            assert(all_digits(q)) by {
                assert forall|k: int| 0 <= k < q.len() implies is_digit(#[trigger] q[k]) by {
                    if k < p.len() {
                        assert(q[k] == p[k]);
                    }
                }
            }
        }
        let next = acc * 10 + d;
        acc = if next < cap {
            next
        } else {
            cap
        };
        i += 1;
    }
    assert(s@.subrange(from as int, s@.len() as int) =~= s@.skip(from as int));
    if acc < cap {
        Some(acc as u64)
    } else {
        None
    }
}

/// `n` zero digits.
pub open spec fn zeros(n: nat) -> Seq<char> {
    Seq::new(n, |i: int| '0')
}

/// Whether every character is the digit zero.
pub open spec fn all_zero(s: Seq<char>) -> bool {
    forall|k: int| 0 <= k < s.len() ==> s[k] == '0'
}

pub open spec fn is_exponent_mark(c: char) -> bool {
    c == 'e' || c == 'E'
}

/// `k` is where the first `e` or `E` of `s` stands.
pub open spec fn first_exponent_mark(s: Seq<char>, k: int) -> bool {
    &&& 0 <= k < s.len()
    &&& is_exponent_mark(s[k])
    &&& forall|j: int| 0 <= j < k ==> !is_exponent_mark(#[trigger] s[j])
}

/// An exponent: an optional sign and one or more digits.
pub open spec fn spec_exponent(s: Seq<char>) -> Option<int> {
    let negative = s.len() > 0 && s[0] == '-';
    let body = if s.len() > 0 && (s[0] == '+' || s[0] == '-') {
        s.drop_first()
    } else {
        s
    };
    if body.len() > 0 && all_digits(body) {
        Some(if negative { -digits_value(body) } else { digits_value(body) as int })
    } else {
        None
    }
}

/// A finite float literal as `f64::from_str` reads one: a decimal number (see
/// `spec_decimal`), then optionally `e` or `E` and an exponent. Gives the sign, the
/// whole and fraction digits before the exponent, and the exponent.
pub open spec fn spec_float_literal(s: Seq<char>) -> Option<(bool, Seq<char>, Seq<char>, int)> {
    if exists|k: int| first_exponent_mark(s, k) {
        let k = choose|k: int| first_exponent_mark(s, k);
        match (spec_decimal(s.take(k)), spec_exponent(s.skip(k + 1))) {
            (Some((negative, whole, frac)), Some(e)) => Some((negative, whole, frac, e)),
            _ => None,
        }
    } else {
        match spec_decimal(s) {
            Some((negative, whole, frac)) => Some((negative, whole, frac, 0)),
            None => None,
        }
    }
}

/// The whole and fraction digits of `whole.frac` times ten to the `e`: the point
/// moves `e` places, with zeros where it moves past the digits.
pub open spec fn shifted(whole: Seq<char>, frac: Seq<char>, e: int) -> (Seq<char>, Seq<char>) {
    let m = whole + frac;
    let p = whole.len() + e;
    if p <= 0 {
        (seq![], zeros((-p) as nat) + m)
    } else if p <= m.len() {
        (m.take(p), m.skip(p))
    } else {
        (m + zeros((p - m.len()) as nat), seq![])
    }
}

/// A float literal as exact digits: whether its value lies below zero (a negative
/// sign before digits that are not all zero), and the whole and fraction digits of
/// its magnitude.
pub open spec fn spec_float(s: Seq<char>) -> Option<(bool, Seq<char>, Seq<char>)> {
    match spec_float_literal(s) {
        Some((negative, whole, frac, e)) => {
            let (w, f) = shifted(whole, frac, e);
            Some((negative && !all_zero(whole + frac), w, f))
        },
        None => None,
    }
}

pub open spec fn pow10(n: nat) -> nat
    decreases n,
{
    if n == 0 {
        1
    } else {
        10 * pow10((n - 1) as nat)
    }
}

proof fn lemma_pow10_grows(a: nat, b: nat)
    requires
        a <= b,
    ensures
        pow10(a) <= pow10(b),
    decreases b,
{
    if a < b {
        lemma_pow10_grows(a, (b - 1) as nat);
    }
}

proof fn lemma_pow10_beyond_cap()
    ensures
        pow10(13) > CAP,
{
    reveal_with_fuel(pow10, 14);
}

/// Zeros after digits multiply their value by ten for each.
proof fn lemma_value_then_zeros(m: Seq<char>, j: nat)
    ensures
        digits_value(m + zeros(j)) == digits_value(m) * pow10(j),
    decreases j,
{
    if j == 0 {
        assert(m + zeros(0) =~= m);
        assert(pow10(0) == 1);
        assert(digits_value(m) * 1 == digits_value(m));
    } else {
        let s = m + zeros(j);
        assert(s.drop_last() =~= m + zeros((j - 1) as nat));
        assert(s.last() == '0');
        assert(digit_value('0') == 0);
        assert(digits_value(s) == digits_value(s.drop_last()) * 10);
        lemma_value_then_zeros(m, (j - 1) as nat);
        let v = digits_value(m);
        let q = pow10((j - 1) as nat);
        assert(pow10(j) == 10 * q);
        assert(digits_value(m + zeros((j - 1) as nat)) == v * q);
        assert((v * q) * 10 == v * (10 * q)) by (nonlinear_arith);
        assert(digits_value(s) == v * pow10(j));
    }
}

proof fn lemma_value_of_zeros(m: Seq<char>)
    requires
        all_zero(m),
    ensures
        digits_value(m) == 0,
    decreases m.len(),
{
    if m.len() > 0 {
        assert(m.last() == '0');
        lemma_value_of_zeros(m.drop_last());
    }
}

proof fn lemma_value_not_zero(m: Seq<char>)
    requires
        all_digits(m),
        !all_zero(m),
    ensures
        digits_value(m) >= 1,
    decreases m.len(),
{
    let last = m.last();
    if last == '0' {
        let d = m.drop_last();
        assert(!all_zero(d)) by {
            if all_zero(d) {
                assert forall|k: int| 0 <= k < m.len() implies m[k] == '0' by {
                    if k < d.len() {
                        assert(m[k] == d[k]);
                    }
                }
            }
        }
        assert(all_digits(d)) by {
            assert forall|k: int| 0 <= k < d.len() implies is_digit(#[trigger] d[k]) by {
                assert(d[k] == m[k]);
            }
        }
        lemma_value_not_zero(d);
    } else {
        assert(is_digit(m[m.len() - 1]));
    }
}

/// Digits past a moved point that begin with at least four zeros: no thousandths,
/// no rounding up, and something below a thousandth exactly when the digits are not
/// all zero.
proof fn lemma_small_fraction(a: nat, m: Seq<char>)
    requires
        a >= 4,
        all_digits(m),
    ensures
        frac_thousandths(zeros(a) + m) == 0,
        !frac_rounds_up(zeros(a) + m),
        frac_has_rest(zeros(a) + m) == !all_zero(m),
{
    let f = zeros(a) + m;
    assert(f[0] == '0' && f[1] == '0' && f[2] == '0' && f[3] == '0');
    if all_zero(m) {
        assert forall|j: int| 3 <= j < f.len() implies f[j] == '0' by {
            if j >= a {
                assert(f[j] == m[j - a]);
            }
        }
    } else {
        let k = choose|k: int| 0 <= k < m.len() && m[k] != '0';
        assert(f[a + k] == m[k]);
    }
}

pub proof fn lemma_zeros_digits(n: nat, m: Seq<char>)
    requires
        all_digits(m),
    ensures
        all_digits(zeros(n) + m),
        all_digits(m + zeros(n)),
{
    assert forall|k: int| 0 <= k < (zeros(n) + m).len() implies is_digit(#[trigger] (zeros(n) + m)[k]) by {
        if k >= n {
            assert((zeros(n) + m)[k] == m[k - n]);
        }
    }
    assert forall|k: int| 0 <= k < (m + zeros(n)).len() implies is_digit(#[trigger] (m + zeros(n))[k]) by {
        if k < m.len() {
            assert((m + zeros(n))[k] == m[k]);
        }
    }
}

/// The bound at which exponents are cut off: far beyond any point that still
/// matters.
pub const EXPONENT_CAP: u128 = 0x4_0000_0000_0000_0000u128;

/// Whether `s` is all digits, and the value they spell, capped at `EXPONENT_CAP`.
fn exponent_digits(s: &[char], from: usize) -> (r: (bool, u128))
    requires
        from <= s@.len(),
    ensures
        r.0 == all_digits(s@.skip(from as int)),
        r.0 ==> r.1 == min_nat(digits_value(s@.skip(from as int)), EXPONENT_CAP as nat),
{
    let mut acc: u128 = 0;
    let mut i = from;
    while i < s.len()
        invariant
            from <= i <= s@.len(),
            all_digits(s@.subrange(from as int, i as int)),
            acc == min_nat(digits_value(s@.subrange(from as int, i as int)), EXPONENT_CAP as nat),
        decreases s@.len() - i,
    {
        let c = s[i];
        if !('0' <= c && c <= '9') {
            proof {
                let t = s@.skip(from as int);
                assert(t[i - from] == c);
            }
            return (false, 0);
        }
        let d = (c as u32 - '0' as u32) as u128;
        proof {
            let p = s@.subrange(from as int, i as int);
            let q = s@.subrange(from as int, i + 1);
            assert(q.drop_last() =~= p);
            assert(q.last() == c);
            lemma_cap_step(digits_value(p), d as nat, 10, EXPONENT_CAP as nat);
            assert(all_digits(q)) by {
                assert forall|k: int| 0 <= k < q.len() implies is_digit(#[trigger] q[k]) by {
                    if k < p.len() {
                        assert(q[k] == p[k]);
                    }
                }
            }
        }
        let next = acc * 10 + d;
        acc = if next < EXPONENT_CAP {
            next
        } else {
            EXPONENT_CAP
        };
        i += 1;
    }
    assert(s@.subrange(from as int, s@.len() as int) =~= s@.skip(from as int));
    (true, acc)
}

pub open spec fn clamp_exponent(e: int) -> int {
    if e > EXPONENT_CAP {
        EXPONENT_CAP as int
    } else if e < -EXPONENT_CAP {
        -EXPONENT_CAP
    } else {
        e
    }
}

/// An exponent, cut off at `EXPONENT_CAP` either way.
fn exponent_of(s: &[char]) -> (r: Option<i128>)
    ensures
        match spec_exponent(s@) {
            Some(e) => r == Some(clamp_exponent(e) as i128),
            None => r is None,
        },
{
    let negative = s.len() > 0 && s[0] == '-';
    let from: usize = if s.len() > 0 && (s[0] == '+' || s[0] == '-') {
        1
    } else {
        0
    };
    proof {
        if from == 1 {
            assert(s@.skip(1) =~= s@.drop_first());
        } else {
            assert(s@.skip(0) =~= s@);
        }
    }
    if from >= s.len() {
        return None;
    }
    let (ok, v) = exponent_digits(s, from);
    if !ok {
        return None;
    }
    if negative {
        Some(-(v as i128))
    } else {
        Some(v as i128)
    }
}

/// Where the first `e` or `E` stands, if anywhere.
fn exponent_mark(s: &[char]) -> (r: Option<usize>)
    ensures
        match r {
            Some(k) => first_exponent_mark(s@, k as int),
            None => !exists|k: int| first_exponent_mark(s@, k),
        },
{
    let mut i: usize = 0;
    while i < s.len()
        invariant
            i <= s@.len(),
            forall|j: int| 0 <= j < i ==> !is_exponent_mark(#[trigger] s@[j]),
        decreases s@.len() - i,
    {
        if s[i] == 'e' || s[i] == 'E' {
            return Some(i);
        }
        i += 1;
    }
    proof {
        assert forall|k: int| !first_exponent_mark(s@, k) by {
            if 0 <= k < s@.len() {
                assert(!is_exponent_mark(s@[k]));
            }
        }
    }
    None
}

fn zeros_vec(n: usize) -> (r: Vec<char>)
    ensures
        r@ == zeros(n as nat),
{
    let mut out: Vec<char> = Vec::new();
    for i in 0..n
        invariant
            out@ == zeros(i as nat),
    {
        out.push('0');
        assert(out@ =~= zeros((i + 1) as nat));
    }
    out
}

fn joined(a: &[char], b: &[char]) -> (r: Vec<char>)
    ensures
        r@ == a@ + b@,
{
    let mut out: Vec<char> = Vec::new();
    for i in 0..a.len()
        invariant
            out@ == a@.take(i as int),
    {
        out.push(a[i]);
        assert(out@ =~= a@.take(i + 1));
    }
    assert(a@.take(a@.len() as int) =~= a@);
    for i in 0..b.len()
        invariant
            out@ == a@ + b@.take(i as int),
    {
        out.push(b[i]);
        assert(out@ =~= a@ + b@.take(i + 1));
    }
    assert(b@.take(b@.len() as int) =~= b@);
    out
}

fn has_nonzero(m: &[char]) -> (r: bool)
    ensures
        r == !all_zero(m@),
{
    for i in 0..m.len()
        invariant
            forall|k: int| 0 <= k < i ==> m@[k] == '0',
    {
        if m[i] != '0' {
            return true;
        }
    }
    false
}

/// What the time fields need of a float literal.
pub struct FloatParts {
    /// Its value lies below zero.
    pub below_zero: bool,
    /// Its whole part, capped at `CAP`.
    pub whole: u64,
    /// The whole thousandths of its fraction.
    pub thousandths: u64,
    /// Its fraction rounds up to the next thousandth.
    pub up: bool,
    /// Something of its fraction lies below a thousandth.
    pub rest: bool,
}

/// A float literal's sign, whole and fraction digits, and exponent cut off at
/// `EXPONENT_CAP`.
fn float_literal(s: &[char]) -> (r: Option<(bool, Vec<char>, Vec<char>, i128)>)
    ensures
        match spec_float_literal(s@) {
            Some((negative, whole, frac, e)) => r matches Some((n, w, f, x)) && n == negative
                && w@ == whole && f@ == frac && x == clamp_exponent(e),
            None => r is None,
        },
{
    let mark = exponent_mark(s);
    let n = s.len();
    match mark {
        Some(k) => {
            assert(first_exponent_mark(s@, k as int));
            assert(k < n);
            assert(forall|j: int| first_exponent_mark(s@, j) ==> j == k) by {
                assert forall|j: int| first_exponent_mark(s@, j) implies j == k by {
                    if j < k {
                        assert(!is_exponent_mark(s@[j]));
                    } else if j > k {
                        assert(!is_exponent_mark(s@[k as int]));
                    }
                }
            }
            let exponent = slice_chars(s, k + 1, s.len());
            assert(exponent@ =~= s@.skip(k + 1));
            let mantissa = slice_chars(s, 0, k);
            assert(mantissa@ =~= s@.take(k as int));
            match (decimal_parts(mantissa.as_slice()), exponent_of(exponent.as_slice())) {
                (Some((negative, whole, frac)), Some(e)) => Some((negative, whole, frac, e)),
                _ => None,
            }
        },
        None => {
            match decimal_parts(s) {
                Some((negative, whole, frac)) => Some((negative, whole, frac, 0i128)),
                None => None,
            }
        },
    }
}

/// The digits of `m` with the point at `p` when that lies before the fourth place
/// after the start: the whole part is empty and the fraction starts with four zeros.
proof fn lemma_point_far_left(m: Seq<char>, p: int, q: int)
    requires
        all_digits(m),
        p <= -4,
        q <= -4,
    ensures
        all_digits(zeros((-p) as nat) + m),
        frac_thousandths(zeros((-p) as nat) + m) == frac_thousandths(zeros((-q) as nat) + m),
        frac_rounds_up(zeros((-p) as nat) + m) == frac_rounds_up(zeros((-q) as nat) + m),
        frac_has_rest(zeros((-p) as nat) + m) == frac_has_rest(zeros((-q) as nat) + m),
{
    lemma_zeros_digits((-p) as nat, m);
    lemma_small_fraction((-p) as nat, m);
    lemma_small_fraction((-q) as nat, m);
}

/// Thirteen or more zeros after digits that are not all zero make a value past `CAP`.
proof fn lemma_point_far_right(m: Seq<char>, a: nat, b: nat)
    requires
        all_digits(m),
        a >= 13,
        b >= 13,
    ensures
        all_digits(m + zeros(a)),
        min_nat(digits_value(m + zeros(a)), CAP as nat) == min_nat(
            digits_value(m + zeros(b)),
            CAP as nat,
        ),
{
    lemma_zeros_digits(a, m);
    lemma_value_then_zeros(m, a);
    lemma_value_then_zeros(m, b);
    if all_zero(m) {
        lemma_value_of_zeros(m);
    } else {
        lemma_value_not_zero(m);
        lemma_pow10_beyond_cap();
        lemma_pow10_grows(13, a);
        lemma_pow10_grows(13, b);
        let v = digits_value(m);
        assert(v * pow10(a) >= pow10(a)) by (nonlinear_arith)
            requires
                v >= 1,
        ;
        assert(v * pow10(b) >= pow10(b)) by (nonlinear_arith)
            requires
                v >= 1,
        ;
    }
}

/// What the time fields need of `whole.frac` times ten to the `e`, where `x` is `e`
/// cut off at `EXPONENT_CAP`.
fn shifted_parts(whole: &Vec<char>, frac: &Vec<char>, x: i128, Ghost(e): Ghost<int>) -> (r: (
    u64,
    u64,
    bool,
    bool,
    bool,
))
    requires
        all_digits(whole@),
        all_digits(frac@),
        x == clamp_exponent(e),
    ensures
        ({
            let (w, f) = shifted(whole@, frac@, e);
            &&& r.0 == min_nat(digits_value(w), CAP as nat)
            &&& r.1 == frac_thousandths(f)
            &&& r.2 == frac_rounds_up(f)
            &&& r.3 == frac_has_rest(f)
            &&& r.4 == !all_zero(whole@ + frac@)
            &&& all_digits(w)
            &&& all_digits(f)
            &&& r.1 < 1000
        }),
{
    let m = joined(whole.as_slice(), frac.as_slice());
    let ml = m.len();
    proof {
        assert(all_digits(m@)) by {
            assert forall|i: int| 0 <= i < m@.len() implies is_digit(#[trigger] m@[i]) by {
                if i < whole@.len() {
                    assert(m@[i] == whole@[i]);
                } else {
                    assert(m@[i] == frac@[i - whole@.len()]);
                }
            }
        }
    }
    let ghost tp: int = whole@.len() + e;
    let p: i128 = whole.len() as i128 + x;
    let hi: i128 = ml as i128 + 13;
    let pc: i128 = if p < -4 {
        -4
    } else if p > hi {
        hi
    } else {
        p
    };
    assert(tp < -4 ==> pc == -4);
    assert(tp > hi ==> pc == hi);
    assert(-4 <= tp <= hi ==> pc == tp);
    let (w2, f2) = if pc <= 0 {
        let z = zeros_vec((-pc) as usize);
        (Vec::new(), joined(z.as_slice(), m.as_slice()))
    } else if pc <= ml as i128 {
        (slice_chars(m.as_slice(), 0, pc as usize), slice_chars(m.as_slice(), pc as usize, ml))
    } else {
        let z = zeros_vec((pc - ml as i128) as usize);
        (joined(m.as_slice(), z.as_slice()), Vec::new())
    };
    let nonzero = has_nonzero(m.as_slice());
    proof {
        let (tw, tf) = shifted(whole@, frac@, e);
        assert(all_digits(seq![]));
        if pc <= 0 {
            assert(w2@ =~= seq![]);
            lemma_zeros_digits((-pc) as nat, m@);
            if tp < -4 {
                lemma_point_far_left(m@, tp, pc as int);
            } else {
                assert(tf == f2@);
            }
        } else if pc <= ml {
            assert(tp == pc);
            assert(all_digits(w2@)) by {
                assert forall|i: int| 0 <= i < w2@.len() implies is_digit(#[trigger] w2@[i]) by {
                    assert(w2@[i] == m@[i]);
                }
            }
            assert(all_digits(f2@)) by {
                assert forall|i: int| 0 <= i < f2@.len() implies is_digit(#[trigger] f2@[i]) by {
                    assert(f2@[i] == m@[i + pc]);
                }
            }
        } else {
            lemma_zeros_digits((pc - ml) as nat, m@);
            assert(f2@ =~= seq![]);
            if tp > hi {
                lemma_point_far_right(m@, (tp - ml) as nat, (pc - ml) as nat);
            } else {
                assert(tw == w2@);
            }
        }
    }
    let (okw, wv) = digits_capped(w2.as_slice(), 0);
    let (t, up, rest) = thousandths(f2.as_slice());
    assert(w2@.skip(0) =~= w2@);
    (wv, t, up, rest, nonzero)
}

/// Reads a float literal (see `spec_float`) down to what the time fields need of it.
pub fn float_parts(s: &[char]) -> (r: Option<FloatParts>)
    ensures
        match spec_float(s@) {
            Some((below, w, f)) => r matches Some(x) && x.below_zero == below && x.whole
                == min_nat(digits_value(w), CAP as nat) && x.thousandths == frac_thousandths(f)
                && x.up == frac_rounds_up(f) && x.rest == frac_has_rest(f) && all_digits(w)
                && all_digits(f) && x.thousandths < 1000,
            None => r is None,
        },
{
    match float_literal(s) {
        Some((negative, whole, frac, x)) => {
            let ghost e = (spec_float_literal(s@)->0).3;
            let (w, t, up, rest, nonzero) = shifted_parts(&whole, &frac, x, Ghost(e));
            Some(FloatParts { below_zero: negative && nonzero, whole: w, thousandths: t, up, rest })
        },
        None => None,
    }
}

/// The decimal digits of a number are digits, at least one, and spell it.
pub proof fn lemma_decimal_digits(n: nat)
    ensures
        spec_decimal_digits(n).len() > 0,
        all_digits(spec_decimal_digits(n)),
        digits_value(spec_decimal_digits(n)) == n,
    decreases n,
{
    let s = spec_decimal_digits(n);
    if n < 10 {
        assert(s.drop_last() =~= Seq::<char>::empty());
        assert(digit_value(digit_char(n)) == n);
        assert(digits_value(s) == digits_value(s.drop_last()) * 10 + digit_value(s.last()));
    } else {
        lemma_decimal_digits(n / 10);
        let p = spec_decimal_digits(n / 10);
        assert(s.drop_last() =~= p);
        assert(digit_value(digit_char(n % 10)) == n % 10);
        assert(s.last() == digit_char(n % 10));
        assert(digits_value(s) == digits_value(p) * 10 + digit_value(s.last()));
        assert((n / 10) * 10 + n % 10 == n);
        assert forall|k: int| 0 <= k < s.len() implies is_digit(#[trigger] s[k]) by {
            if k < p.len() {
                assert(s[k] == p[k]);
            }
        }
    }
}

} // verus!
