use crate::lyrics::{Line, LineView, lines_view};
use crate::numbers::{
    all_digits, all_zero, digits_value, float_parts, frac_digit, frac_has_rest, frac_rounds_up,
    first_exponent_mark, frac_thousandths, is_digit, is_exponent_mark, min_nat, parse_u32,
    spec_decimal, spec_float, spec_parse_u32, CAP,
};
use crate::text::{
    chars_of, chars_views, find_char, first_index_of, lines_of, slice_chars, spec_lines, spec_split,
    split_chars, split_state, string_from_chars, trim, trim_chars, trim_start, trim_start_index,
};
use vstd::prelude::*;

verus! {

/// The number of milliseconds that still fits a `u32`.
pub open spec fn ms_limit() -> nat {
    u32::MAX as nat
}

/// `seconds` whole seconds and the fraction `frac` of one, rounded to the nearest
/// millisecond (halves up), when that is at most `u32::MAX` milliseconds.
pub open spec fn to_ms(seconds: nat, frac: Seq<char>) -> Option<u32> {
    let floor = seconds * 1000 + frac_thousandths(frac);
    if floor < ms_limit() || (floor == ms_limit() && !frac_has_rest(frac)) {
        Some(
            (floor + if frac_rounds_up(frac) {
                1nat
            } else {
                0nat
            }) as u32,
        )
    } else {
        None
    }
}

/// A leading part of a clock time: a float literal whose value is a whole number that
/// is not below zero.
pub open spec fn clock_part(s: Seq<char>) -> Option<nat> {
    match spec_float(s) {
        Some((below, whole, frac)) => if !below && all_zero(frac) {
            Some(digits_value(whole))
        } else {
            None
        },
        None => None,
    }
}

/// The whole seconds that the `':'`-separated parts of a clock time add up to, when
/// each is a whole number (see `clock_part`): each part counts sixty of the next.
pub open spec fn clock_whole(parts: Seq<Seq<char>>) -> Option<nat>
    decreases parts.len(),
{
    if parts.len() == 0 {
        Some(0)
    } else {
        match (clock_whole(parts.drop_last()), clock_part(parts.last())) {
            (Some(t), Some(p)) => Some(t * 60 + p),
            _ => None,
        }
    }
}

/// A clock time such as `1:16.656` or `00:01:30.500`: whole parts, then seconds
/// that may carry a fraction.
pub open spec fn clock_ms(parts: Seq<Seq<char>>) -> Option<u32> {
    if parts.len() == 0 {
        None
    } else {
        match (clock_whole(parts.drop_last()), spec_float(parts.last())) {
            (Some(t), Some((below, whole, frac))) => if below {
                None
            } else {
                to_ms(t * 60 + digits_value(whole), frac)
            },
            _ => None,
        }
    }
}

/// A number of seconds such as `12.5` or `1.25e1`.
pub open spec fn seconds_ms(s: Seq<char>) -> Option<u32> {
    match spec_float(s) {
        Some((below, whole, frac)) => if below {
            None
        } else {
            to_ms(digits_value(whole), frac)
        },
        None => None,
    }
}

/// A TTML time in milliseconds: `250ms`, `12.5s`, or a clock time; surrounding
/// whitespace is ignored.
pub open spec fn spec_parse_time(value: Seq<char>) -> Option<u32> {
    let v = trim(value);
    if v.len() >= 2 && v[v.len() - 2] == 'm' && v.last() == 's' {
        spec_parse_u32(v.take(v.len() - 2))
    } else if v.len() >= 1 && v.last() == 's' {
        seconds_ms(v.drop_last())
    } else {
        clock_ms(spec_split(v, ':'))
    }
}

proof fn lemma_clock_whole_none(parts: Seq<Seq<char>>, k: int)
    requires
        0 <= k <= parts.len(),
        clock_whole(parts.take(k)) is None,
    ensures
        clock_whole(parts) is None,
    decreases parts.len() - k,
{
    if k < parts.len() {
        assert(parts.take(k + 1).drop_last() =~= parts.take(k));
        lemma_clock_whole_none(parts, k + 1);
    } else {
        assert(parts.take(k) =~= parts);
    }
}

fn to_ms_capped(
    total: u64,
    t: u64,
    up: bool,
    rest: bool,
    Ghost(seconds): Ghost<nat>,
    Ghost(frac): Ghost<Seq<char>>,
) -> (r: Option<u32>)
    requires
        all_digits(frac),
        t == frac_thousandths(frac),
        up == frac_rounds_up(frac),
        rest == frac_has_rest(frac),
        t < 1000,
        total == min_nat(seconds, CAP as nat),
    ensures
        r == to_ms(seconds, frac),
{
    let floor = total * 1000 + t;
    let limit: u64 = 0xffff_ffff;
    if floor < limit || (floor == limit && !rest) {
        proof {
            if seconds >= CAP {
                assert(floor >= CAP * 1000);
            }
            if floor == limit && !rest {
                assert(!frac_rounds_up(frac)) by {
                    if frac.len() > 3 {
                        assert(frac[3] == '0');
                    }
                }
            }
        }
        let ms = if up {
            floor + 1
        } else {
            floor
        };
        Some(ms as u32)
    } else {
        proof {
            if seconds < CAP {
                assert(total == seconds);
            }
        }
        None
    }
}

/// Digits are all zero exactly when they have no thousandths and nothing below one.
proof fn lemma_zero_fraction(f: Seq<char>)
    requires
        all_digits(f),
    ensures
        all_zero(f) <==> (frac_thousandths(f) == 0 && !frac_has_rest(f)),
{
    if frac_thousandths(f) == 0 && !frac_has_rest(f) {
        assert forall|k: int| 0 <= k < f.len() implies f[k] == '0' by {
            assert(is_digit(f[k]));
            if k < 3 {
                assert(frac_digit(f, k) == 0);
            }
        }
    }
}

/// A leading part of a clock time, capped at `CAP` (see `clock_part`).
fn whole_part(s: &[char]) -> (r: Option<u64>)
    ensures
        match clock_part(s@) {
            Some(v) => r == Some(min_nat(v, CAP as nat) as u64),
            None => r is None,
        },
{
    match float_parts(s) {
        Some(x) => {
            proof {
                lemma_zero_fraction((spec_float(s@)->0).2);
            }
            if !x.below_zero && x.thousandths == 0 && !x.rest {
                Some(x.whole)
            } else {
                None
            }
        },
        None => None,
    }
}

/// Reads a TTML time (`250ms`, `12.5s`, `1:16.656`, `00:01:30.500`) as
/// milliseconds, rounding to the nearest one; seconds and clock parts are float
/// literals (`1e3s`, `-0s`), read as exact decimals. `None` when it is malformed,
/// below zero, beyond `u32::MAX` milliseconds, or when a part before the last is not
/// a whole number.
pub fn parse_time(value: &str) -> (r: Option<u32>)
    ensures
        r == spec_parse_time(value@),
{
    let all = chars_of(value);
    let v = trim_chars(all.as_slice());
    let n = v.len();
    if n >= 2 && v[n - 2] == 'm' && v[n - 1] == 's' {
        let digits = slice_chars(v.as_slice(), 0, n - 2);
        assert(digits@ =~= v@.take(n - 2));
        return parse_u32(digits.as_slice());
    }
    if n >= 1 && v[n - 1] == 's' {
        let number = slice_chars(v.as_slice(), 0, n - 1);
        assert(number@ =~= v@.drop_last());
        return match float_parts(number.as_slice()) {
            Some(x) => {
                if x.below_zero {
                    None
                } else {
                    let ghost parts = spec_float(number@)->0;
                    to_ms_capped(
                        x.whole,
                        x.thousandths,
                        x.up,
                        x.rest,
                        Ghost(digits_value(parts.1)),
                        Ghost(parts.2),
                    )
                }
            },
            None => None,
        };
    }
    let parts = split_chars(v.as_slice(), ':');
    let ghost views = chars_views(parts@);
    let m = parts.len();
    assert(m >= 1);
    assert(spec_parse_time(value@) == clock_ms(views));
    let mut acc: u64 = 0;
    for k in 0..m - 1
        invariant
            m == parts@.len(),
            m >= 1,
            views == chars_views(parts@),
            spec_parse_time(value@) == clock_ms(views),
            clock_whole(views.take(k as int)) is Some,
            acc == min_nat(clock_whole(views.take(k as int))->0, CAP as nat),
    {
        proof {
            assert(views.take(k + 1).drop_last() =~= views.take(k as int));
            assert(views.take(k + 1).last() == parts@[k as int]@);
        }
        match whole_part(parts[k].as_slice()) {
            Some(p) => {
                proof {
                    lemma_cap_60(
                        clock_whole(views.take(k as int))->0,
                        clock_part(parts@[k as int]@)->0,
                    );
                }
                let next = acc * 60 + p;
                acc = if next < CAP {
                    next
                } else {
                    CAP
                };
            },
            None => {
                proof {
                    assert(clock_whole(views.take(k + 1)) is None);
                    assert(views.drop_last().take(k + 1) =~= views.take(k + 1));
                    lemma_clock_whole_none(views.drop_last(), k + 1);
                }
                return None;
            },
        }
    }
    assert(views.take(m - 1) =~= views.drop_last());
    let last = &parts[m - 1];
    assert(last@ == views.last());
    match float_parts(last.as_slice()) {
        Some(x) => {
            if x.below_zero {
                None
            } else {
                let ghost parts = spec_float(last@)->0;
                let ghost t = clock_whole(views.drop_last())->0;
                proof {
                    lemma_cap_60(t, digits_value(parts.1));
                }
                let next = acc * 60 + x.whole;
                let total = if next < CAP {
                    next
                } else {
                    CAP
                };
                to_ms_capped(
                    total,
                    x.thousandths,
                    x.up,
                    x.rest,
                    Ghost(t * 60 + digits_value(parts.1)),
                    Ghost(parts.2),
                )
            }
        },
        None => None,
    }
}

proof fn lemma_cap_60(t: nat, p: nat)
    ensures
        min_nat(60 * min_nat(t, CAP as nat) + min_nat(p, CAP as nat), CAP as nat) == min_nat(
            60 * t + p,
            CAP as nat,
        ),
{
    if t >= CAP {
        assert(60 * t >= t);
    }
}

/// `u32::from_str` of a Spotify millisecond field.
pub fn parse_ms(value: &str) -> (r: Option<u32>)
    ensures
        r == spec_parse_u32(value@),
{
    let chars = chars_of(value);
    parse_u32(chars.as_slice())
}

/// A text without the separator is one piece.
proof fn lemma_split_whole(s: Seq<char>, sep: char)
    requires
        forall|k: int| 0 <= k < s.len() ==> s[k] != sep,
    ensures
        split_state(s, sep) == (Seq::<Seq<char>>::empty(), s),
    decreases s.len(),
{
    if s.len() > 0 {
        lemma_split_whole(s.drop_last(), sep);
        assert(s.drop_last().push(s.last()) =~= s);
    }
}

/// Two pieces around one separator.
proof fn lemma_split_append(a: Seq<char>, b: Seq<char>, sep: char)
    requires
        split_state(a, sep) == (Seq::<Seq<char>>::empty(), a),
        forall|k: int| 0 <= k < b.len() ==> b[k] != sep,
    ensures
        split_state(a + seq![sep] + b, sep) == (seq![a], b),
    decreases b.len(),
{
    if b.len() == 0 {
        let s = a + seq![sep];
        assert(s.drop_last() =~= a);
        assert(a + seq![sep] + b =~= s);
        assert(Seq::<Seq<char>>::empty().push(a) =~= seq![a]);
    } else {
        let s = a + seq![sep] + b;
        assert(s.drop_last() =~= a + seq![sep] + b.drop_last());
        lemma_split_append(a, b.drop_last(), sep);
        assert(b.drop_last().push(b.last()) =~= b);
    }
}

/// Digits alone read as a float literal of that whole number.
proof fn lemma_plain_float(d: Seq<char>)
    requires
        d.len() > 0,
        all_digits(d),
    ensures
        spec_float(d) == Some((false, d, Seq::<char>::empty())),
{
    assert forall|k: int| 0 <= k < d.len() implies d[k] != '.' && !is_exponent_mark(d[k]) by {
        assert(is_digit(d[k]));
    }
    assert(!exists|k: int| first_exponent_mark(d, k));
    assert(is_digit(d[0]));
    lemma_split_whole(d, '.');
    assert(spec_split(d, '.') =~= seq![d]);
    assert(spec_decimal(d) == Some((false, d, Seq::<char>::empty())));
    assert(d + Seq::<char>::empty() =~= d);
    assert(d.take(d.len() as int) =~= d);
    assert(d.skip(d.len() as int) =~= Seq::<char>::empty());
}

/// A time written in milliseconds, in seconds, or as a clock of whole minutes and
/// seconds reads as the same number of milliseconds: `<n>ms` is `n`, `<n>s` is a
/// thousand times `n`, and `<m>:<n>` is `m` minutes and `n` seconds, each when it fits
/// in a `u32`.
pub proof fn law_time_forms(minutes: Seq<char>, digits: Seq<char>)
    requires
        digits.len() > 0,
        all_digits(digits),
        minutes.len() > 0,
        all_digits(minutes),
    ensures
        spec_parse_time(digits + seq!['m', 's']) == if digits_value(digits) <= u32::MAX {
            Some(digits_value(digits) as u32)
        } else {
            None::<u32>
        },
        spec_parse_time(digits + seq!['s']) == if digits_value(digits) * 1000 <= u32::MAX {
            Some((digits_value(digits) * 1000) as u32)
        } else {
            None::<u32>
        },
        spec_parse_time(minutes + seq![':'] + digits) == if (digits_value(minutes) * 60
            + digits_value(digits)) * 1000 <= u32::MAX {
            Some(((digits_value(minutes) * 60 + digits_value(digits)) * 1000) as u32)
        } else {
            None::<u32>
        },
{
    let v = digits_value(digits);
    assert(is_digit(digits[0]) && is_digit(digits.last()));
    assert(is_digit(minutes[0]));
    assert forall|k: int| 0 <= k < digits.len() implies digits[k] != '.' && digits[k] != ':'
        && !is_exponent_mark(digits[k]) by {
        assert(is_digit(digits[k]));
    }
    assert forall|k: int| 0 <= k < minutes.len() implies minutes[k] != '.' && minutes[k] != ':'
        && !is_exponent_mark(minutes[k]) by {
        assert(is_digit(minutes[k]));
    }
    // milliseconds
    let ms = digits + seq!['m', 's'];
    assert(trim(ms) == ms);
    assert(ms.take(ms.len() - 2) =~= digits);
    // seconds
    let sec = digits + seq!['s'];
    assert(trim(sec) == sec);
    assert(sec.drop_last() =~= digits);
    lemma_plain_float(digits);
    lemma_plain_float(minutes);
    assert(to_ms(v, seq![]) == if v * 1000 <= u32::MAX {
        Some((v * 1000) as u32)
    } else {
        None::<u32>
    });
    // clock
    let clock = minutes + seq![':'] + digits;
    assert(clock[0] == minutes[0]);
    assert(clock.last() == digits.last());
    assert(trim(clock) == clock);
    assert(clock.last() != 's');
    lemma_split_whole(minutes, ':');
    lemma_split_whole(digits, ':');
    lemma_split_append(minutes, digits, ':');
    let parts = spec_split(clock, ':');
    assert(parts =~= seq![minutes, digits]);
    assert(parts.drop_last() =~= seq![minutes]);
    assert(seq![minutes].drop_last() =~= Seq::<Seq<char>>::empty());
    assert(clock_part(minutes) == Some(digits_value(minutes))) by {
        assert(all_zero(Seq::<char>::empty()));
    }
    assert(seq![minutes].last() == minutes);
    assert(clock_whole(Seq::<Seq<char>>::empty()) == Some(0nat));
    assert(clock_whole(seq![minutes]) == Some(digits_value(minutes)));
    assert(parts.last() == digits);
}

} // verus!

verus! {

/// The index of the first `c` in `s`.
pub open spec fn index_of(s: Seq<char>, c: char) -> Option<nat>
    decreases s.len(),
{
    if s.len() == 0 {
        None
    } else if s[0] == c {
        Some(0)
    } else {
        match index_of(s.drop_first(), c) {
            Some(i) => Some(i + 1),
            None => None,
        }
    }
}

/// A found position lies inside the text.
pub proof fn lemma_index_of_bound(s: Seq<char>, c: char)
    ensures
        index_of(s, c) matches Some(i) ==> i < s.len(),
    decreases s.len(),
{
    if s.len() > 0 && s[0] != c {
        lemma_index_of_bound(s.drop_first(), c);
    }
}

proof fn lemma_index_of(s: Seq<char>, c: char, r: Option<usize>)
    requires
        match r {
            Some(i) => first_index_of(s, c, i as int),
            None => forall|k: int| 0 <= k < s.len() ==> s[k] != c,
        },
    ensures
        match r {
            Some(i) => index_of(s, c) == Some(i as nat),
            None => index_of(s, c) is None,
        },
    decreases s.len(),
{
    if s.len() > 0 && s[0] != c {
        let t = s.drop_first();
        match r {
            Some(i) => {
                assert(i >= 1);
                assert forall|k: int| 0 <= k < i - 1 implies t[k] != c by {
                    assert(t[k] == s[k + 1]);
                }
                lemma_index_of(t, c, Some((i - 1) as usize));
            },
            None => {
                assert forall|k: int| 0 <= k < t.len() implies t[k] != c by {
                    assert(t[k] == s[k + 1]);
                }
                lemma_index_of(t, c, None);
            },
        }
    }
}

pub(crate) fn index_of_char(s: &[char], c: char) -> (r: Option<usize>)
    ensures
        match r {
            Some(i) => index_of(s@, c) == Some(i as nat) && i < s@.len(),
            None => index_of(s@, c) is None,
        },
{
    let r = find_char(s, c);
    proof {
        lemma_index_of(s@, c, r);
    }
    r
}

/// Milliseconds of an LRC seconds field, as the float reading of the field rounds
/// them into a `u32`: negative values and `nan` give 0, values past `u32::MAX` and
/// infinity give `u32::MAX`.
/// `c` is the lower-case letter `letter` in either case.
pub open spec fn same_letter(c: char, letter: char) -> bool {
    c == letter || (c as u32) + 32 == (letter as u32)
}

/// `s` spells `word` (lower-case letters), letters in either case.
pub open spec fn spells(s: Seq<char>, word: Seq<char>) -> bool {
    s.len() == word.len() && forall|k: int| 0 <= k < s.len() ==> same_letter(s[k], word[k])
}

/// What a float that is not finite becomes in milliseconds once rounded into a `u32`:
/// `inf` and `infinity` (in either case, with an optional sign) give `u32::MAX`, or 0
/// below zero; `nan` gives 0.
pub open spec fn non_finite_ms(s: Seq<char>) -> Option<nat> {
    let negative = s.len() > 0 && s[0] == '-';
    let body = if s.len() > 0 && (s[0] == '+' || s[0] == '-') {
        s.drop_first()
    } else {
        s
    };
    if spells(body, seq!['i', 'n', 'f']) || spells(
        body,
        seq!['i', 'n', 'f', 'i', 'n', 'i', 't', 'y'],
    ) {
        Some(if negative { 0 } else { u32::MAX as nat })
    } else if spells(body, seq!['n', 'a', 'n']) {
        Some(0)
    } else {
        None
    }
}

pub open spec fn lrc_seconds_ms(s: Seq<char>) -> Option<nat> {
    match spec_float(s) {
        Some((below, whole, frac)) => Some(
            if below {
                0
            } else {
                min_nat(
                    digits_value(whole) * 1000 + frac_thousandths(frac) + if frac_rounds_up(
                        frac,
                    ) {
                        1nat
                    } else {
                        0nat
                    },
                    u32::MAX as nat,
                )
            },
        ),
        None => non_finite_ms(s),
    }
}

/// The start of an LRC line: `[mm:ss.xx]` read as milliseconds; the line is left
/// out when a start does not fit in a `u32`.
pub open spec fn lrc_start(time: Seq<char>) -> Option<u32> {
    match index_of(time, ':') {
        Some(colon) => match (
            spec_parse_u32(time.take(colon as int)),
            lrc_seconds_ms(time.skip(colon as int + 1)),
        ) {
            (Some(minutes), Some(seconds)) => {
                let start = min_nat((minutes * 60000) as nat, u32::MAX as nat) + seconds;
                if start <= u32::MAX {
                    Some(start as u32)
                } else {
                    None
                }
            },
            _ => None,
        },
        None => None,
    }
}

/// One LRC line: a one-byte first character, a time up to the first `]`, and the
/// text after it without its leading whitespace.
pub open spec fn spec_lrc_line(line: Seq<char>) -> Option<LineView> {
    match index_of(line, ']') {
        Some(close) => if close >= 1 && (line[0] as u32) < 0x80 {
            match lrc_start(line.subrange(1, close as int)) {
                Some(start) => Some(
                    LineView {
                        text: trim_start(line.skip(close as int + 1)),
                        start_ms: Some(start),
                        end_ms: None,
                        words: seq![],
                    },
                ),
                None => None,
            }
        } else {
            None
        },
        None => None,
    }
}

pub open spec fn lrc_lines(lines: Seq<Seq<char>>) -> Seq<LineView>
    decreases lines.len(),
{
    if lines.len() == 0 {
        seq![]
    } else {
        let before = lrc_lines(lines.drop_last());
        match spec_lrc_line(lines.last()) {
            Some(line) => before.push(line),
            None => before,
        }
    }
}

/// The timed lines of LRC text; lines that do not parse are left out.
pub open spec fn spec_parse_lrc(input: Seq<char>) -> Seq<LineView> {
    lrc_lines(spec_lines(input))
}

fn spells_word(s: &[char], from: usize, word: &[char]) -> (r: bool)
    requires
        from <= s@.len(),
        forall|k: int| 0 <= k < word@.len() ==> 'a' <= #[trigger] word@[k] <= 'z',
    ensures
        r == spells(s@.skip(from as int), word@),
{
    let ghost body = s@.skip(from as int);
    let n = s.len();
    if n - from != word.len() {
        return false;
    }
    let mut k: usize = 0;
    while k < word.len()
        invariant
            k <= word@.len(),
            n == s@.len(),
            from <= n,
            n - from == word@.len(),
            body == s@.skip(from as int),
            forall|j: int| 0 <= j < word@.len() ==> 'a' <= #[trigger] word@[j] <= 'z',
            forall|j: int| 0 <= j < k ==> same_letter(#[trigger] body[j], word@[j]),
        decreases word@.len() - k,
    {
        let c = s[from + k];
        let l = word[k];
        assert(body[k as int] == c);
        if !(c == l || (c as u32) as u64 + 32 == (l as u32) as u64) {
            return false;
        }
        k += 1;
    }
    true
}

/// A seconds field that f64 reads as infinity or not-a-number (see `non_finite_ms`).
fn non_finite(s: &[char]) -> (r: Option<u32>)
    ensures
        match non_finite_ms(s@) {
            Some(v) => r == Some(v as u32),
            None => r is None,
        },
{
    let negative = s.len() > 0 && s[0] == '-';
    let from: usize = if s.len() > 0 && (s[0] == '+' || s[0] == '-') {
        1
    } else {
        0
    };
    proof {
        if from == 1 {
            assert(s@.skip(1) =~= s@.drop_first());
        } else {
            assert(s@.skip(0) =~= s@);
        }
    }
    let inf = ['i', 'n', 'f'];
    let infinity = ['i', 'n', 'f', 'i', 'n', 'i', 't', 'y'];
    let nan = ['n', 'a', 'n'];
    assert(inf@ =~= seq!['i', 'n', 'f']);
    assert(infinity@ =~= seq!['i', 'n', 'f', 'i', 'n', 'i', 't', 'y']);
    assert(nan@ =~= seq!['n', 'a', 'n']);
    if spells_word(s, from, &inf) || spells_word(s, from, &infinity) {
        if negative {
            Some(0)
        } else {
            Some(0xffff_ffffu32)
        }
    } else if spells_word(s, from, &nan) {
        Some(0)
    } else {
        None
    }
}

fn lrc_seconds(s: &[char]) -> (r: Option<u32>)
    ensures
        match lrc_seconds_ms(s@) {
            Some(v) => r == Some(v as u32),
            None => r is None,
        },
{
    match float_parts(s) {
        Some(x) => {
            if x.below_zero {
                Some(0)
            } else {
                let w = x.whole;
                let t = x.thousandths;
                let up = x.up;
                let ms = w * 1000 + t + if up {
                    1
                } else {
                    0
                };
                if ms <= 0xffff_ffffu64 {
                    Some(ms as u32)
                } else {
                    Some(0xffff_ffffu32)
                }
            }
        },
        None => non_finite(s),
    }
}

fn lrc_line(line: &[char]) -> (r: Option<Line>)
    ensures
        match spec_lrc_line(line@) {
            Some(v) => r is Some && r->0@ == v,
            None => r is None,
        },
{
    let close = match index_of_char(line, ']') {
        Some(close) => close,
        None => return None,
    };
    if close < 1 {
        return None;
    }
    let first = line[0];
    if (first as u32) >= 0x80 {
        assert(!((line@[0] as u32) < 0x80));
        return None;
    }
    let time = slice_chars(line, 1, close);
    let colon = match index_of_char(time.as_slice(), ':') {
        Some(colon) => colon,
        None => return None,
    };
    let minutes_text = slice_chars(time.as_slice(), 0, colon);
    let seconds_text = slice_chars(time.as_slice(), colon + 1, time.len());
    assert(minutes_text@ =~= time@.take(colon as int));
    assert(seconds_text@ =~= time@.skip(colon + 1));
    let minutes = match parse_u32(minutes_text.as_slice()) {
        Some(m) => m,
        None => return None,
    };
    let seconds = match lrc_seconds(seconds_text.as_slice()) {
        Some(s) => s,
        None => return None,
    };
    let scaled: u64 = if (minutes as u64) * 60000 <= 0xffff_ffffu64 {
        (minutes as u64) * 60000
    } else {
        0xffff_ffffu64
    };
    let start = scaled + seconds as u64;
    if start > 0xffff_ffffu64 {
        return None;
    }
    let rest = slice_chars(line, close + 1, line.len());
    assert(rest@ =~= line@.skip(close + 1));
    let from = trim_start_index(rest.as_slice());
    let text = slice_chars(rest.as_slice(), from, rest.len());
    assert(text@ =~= rest@.skip(from as int));
    let line = Line {
        text: string_from_chars(text.as_slice()),
        start_ms: Some(start as u32),
        end_ms: None,
        words: Vec::new(),
    };
    assert(line@.words =~= seq![]);
    Some(line)
}

/// The timed lines of LRC text (`[mm:ss.xx] text` per line), in order; lines that
/// do not parse are left out, and no line has an end yet.
pub fn parse_lrc(input: &str) -> (r: Vec<Line>)
    ensures
        lines_view(r@) == spec_parse_lrc(input@),
{
    let chars = chars_of(input);
    let lines = lines_of(chars.as_slice());
    let ghost views = chars_views(lines@);
    let mut out: Vec<Line> = Vec::new();
    let n = lines.len();
    for i in 0..n
        invariant
            n == lines@.len(),
            views == chars_views(lines@),
            lines_view(out@) == lrc_lines(views.take(i as int)),
    {
        proof {
            assert(views.take(i + 1).drop_last() =~= views.take(i as int));
            assert(views.take(i + 1).last() == lines@[i as int]@);
        }
        let parsed = lrc_line(lines[i].as_slice());
        match parsed {
            Some(line) => {
                out.push(line);
                assert(lines_view(out@) =~= lrc_lines(views.take(i + 1)));
            },
            None => {},
        }
    }
    assert(views.take(n as int) =~= views);
    out
}

pub open spec fn plain_line(text: Seq<char>) -> LineView {
    LineView { text, start_ms: None, end_ms: None, words: seq![] }
}

/// Every line of `input` as an untimed line.
pub fn plain_lines(input: &str) -> (r: Vec<Line>)
    ensures
        lines_view(r@) == spec_lines(input@).map_values(|t: Seq<char>| plain_line(t)),
{
    let chars = chars_of(input);
    let lines = lines_of(chars.as_slice());
    let ghost views = chars_views(lines@);
    let mut out: Vec<Line> = Vec::new();
    let n = lines.len();
    for i in 0..n
        invariant
            n == lines@.len(),
            views == chars_views(lines@),
            out@.len() == i,
            forall|k: int| 0 <= k < i ==> #[trigger] out@[k]@ == plain_line(views[k]),
    {
        let line = Line {
            text: string_from_chars(lines[i].as_slice()),
            start_ms: None,
            end_ms: None,
            words: Vec::new(),
        };
        assert(line@.words =~= seq![]);
        out.push(line);
    }
    assert(lines_view(out@) =~= spec_lines(input@).map_values(|t: Seq<char>| plain_line(t)));
    out
}

/// The first `c` stands right after a text that holds none.
proof fn lemma_index_after(a: Seq<char>, c: char, b: Seq<char>)
    requires
        forall|k: int| 0 <= k < a.len() ==> a[k] != c,
    ensures
        index_of(a + seq![c] + b, c) == Some(a.len()),
    decreases a.len(),
{
    let s = a + seq![c] + b;
    if a.len() > 0 {
        assert(s[0] == a[0]);
        assert(s.drop_first() =~= a.drop_first() + seq![c] + b);
        lemma_index_after(a.drop_first(), c, b);
    } else {
        assert(s[0] == c);
    }
}

/// An LRC line `[<m>:<s>]<text>` of whole minutes and seconds starts at `m` minutes
/// and `s` seconds, when that fits in a `u32`, and shows the text without its
/// leading whitespace.
pub proof fn law_lrc_line(minutes: Seq<char>, seconds: Seq<char>, text: Seq<char>)
    requires
        minutes.len() > 0,
        all_digits(minutes),
        seconds.len() > 0,
        all_digits(seconds),
        digits_value(minutes) * 60000 + digits_value(seconds) * 1000 <= u32::MAX,
    ensures
        spec_lrc_line(seq!['['] + minutes + seq![':'] + seconds + seq![']'] + text) == Some(
            LineView {
                text: trim_start(text),
                start_ms: Some((digits_value(minutes) * 60000 + digits_value(seconds) * 1000) as u32),
                end_ms: None,
                words: seq![],
            },
        ),
{
    let time = minutes + seq![':'] + seconds;
    let line = seq!['['] + minutes + seq![':'] + seconds + seq![']'] + text;
    assert forall|k: int| 0 <= k < minutes.len() implies minutes[k] != ':' && minutes[k] != ']' by {
        assert(is_digit(minutes[k]));
    }
    assert forall|k: int| 0 <= k < seconds.len() implies seconds[k] != ']' by {
        assert(is_digit(seconds[k]));
    }
    let head = seq!['['] + time;
    assert forall|k: int| 0 <= k < head.len() implies head[k] != ']' by {
        if k > 0 && k <= minutes.len() {
            assert(head[k] == minutes[k - 1]);
        } else if k > minutes.len() + 1 {
            assert(head[k] == seconds[k - minutes.len() - 2]);
        }
    }
    assert(line =~= head + seq![']'] + text);
    lemma_index_after(head, ']', text);
    let close = head.len() as int;
    assert(line.subrange(1, close) =~= time);
    assert(line.skip(close + 1) =~= text);
    assert(line[0] == '[');
    assert(time =~= minutes + seq![':'] + seconds);
    lemma_index_after(minutes, ':', seconds);
    assert(time.take(minutes.len() as int) =~= minutes);
    assert(time.skip(minutes.len() + 1int) =~= seconds);
    assert(is_digit(minutes[0]));
    assert(spec_parse_u32(minutes) == Some(digits_value(minutes) as u32));
    lemma_plain_float(seconds);
    assert(lrc_seconds_ms(seconds) == Some(digits_value(seconds) * 1000));
}

} // verus!
