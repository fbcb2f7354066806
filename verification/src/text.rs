use vstd::prelude::*;

verus! {

/// Whether `c` has the Unicode `White_Space` property, which is what
/// `char::is_whitespace` tests.
pub open spec fn spec_is_whitespace(c: char) -> bool {
    let u = c as u32;
    (0x9 <= u <= 0xd) || u == 0x20 || u == 0x85 || u == 0xa0 || u == 0x1680 || (0x2000 <= u
        <= 0x200a) || u == 0x2028 || u == 0x2029 || u == 0x202f || u == 0x205f || u == 0x3000
}

pub fn is_whitespace(c: char) -> (r: bool)
    ensures
        r == spec_is_whitespace(c),
{
    let u = c as u32;
    (0x9 <= u && u <= 0xd) || u == 0x20 || u == 0x85 || u == 0xa0 || u == 0x1680 || (0x2000 <= u
        && u <= 0x200a) || u == 0x2028 || u == 0x2029 || u == 0x202f || u == 0x205f || u == 0x3000
}

/// The characters of `s`, in order.
pub fn chars_of(s: &str) -> (r: Vec<char>)
    ensures
        r@ == s@,
{
    let mut out: Vec<char> = Vec::new();
    for c in it: s.chars()
        invariant
            out@ == it.seq().take(it.index() as int),
            it.seq() == s@,
    {
        out.push(c);
    }
    out
}

/// `String::from_iter` over characters.
#[verifier::external_body]
pub(crate) fn string_from_chars(chars: &[char]) -> (r: String)
    ensures
        r@ == chars@,
{
    chars.iter().collect()
}

} // verus!

verus! {

/// `s` without its leading whitespace.
pub open spec fn trim_start(s: Seq<char>) -> Seq<char>
    decreases s.len(),
{
    if s.len() > 0 && spec_is_whitespace(s[0]) {
        trim_start(s.drop_first())
    } else {
        s
    }
}

/// `s` without its trailing whitespace.
pub open spec fn trim_end(s: Seq<char>) -> Seq<char>
    decreases s.len(),
{
    if s.len() > 0 && spec_is_whitespace(s.last()) {
        trim_end(s.drop_last())
    } else {
        s
    }
}

/// `s` without leading and trailing whitespace, as `str::trim` gives it.
pub open spec fn trim(s: Seq<char>) -> Seq<char> {
    trim_end(trim_start(s))
}

proof fn lemma_trim_start_skip(s: Seq<char>, i: int)
    requires
        0 <= i <= s.len(),
        forall|k: int| 0 <= k < i ==> spec_is_whitespace(#[trigger] s[k]),
    ensures
        trim_start(s) == trim_start(s.skip(i)),
    decreases i,
{
    if i > 0 {
        assert(s.skip(1) =~= s.drop_first());
        lemma_trim_start_skip(s.drop_first(), i - 1);
        assert(s.drop_first().skip(i - 1) =~= s.skip(i));
    } else {
        assert(s.skip(0) =~= s);
    }
}

proof fn lemma_trim_end_take(s: Seq<char>, j: int)
    requires
        0 <= j <= s.len(),
        forall|k: int| j <= k < s.len() ==> spec_is_whitespace(#[trigger] s[k]),
    ensures
        trim_end(s) == trim_end(s.take(j)),
    decreases s.len() - j,
{
    if j < s.len() {
        assert(s.take(s.len() - 1) =~= s.drop_last());
        lemma_trim_end_take(s.drop_last(), j);
        assert(s.drop_last().take(j) =~= s.take(j));
    } else {
        assert(s.take(j) =~= s);
    }
}

/// The index of the first character of `s` that is not whitespace (`s.len()` when
/// there is none).
pub fn trim_start_index(s: &[char]) -> (r: usize)
    ensures
        r <= s@.len(),
        trim_start(s@) == s@.skip(r as int),
{
    let mut i: usize = 0;
    while i < s.len() && is_whitespace(s[i])
        invariant
            i <= s@.len(),
            forall|k: int| 0 <= k < i ==> spec_is_whitespace(#[trigger] s@[k]),
        decreases s@.len() - i,
    {
        i += 1;
    }
    proof {
        lemma_trim_start_skip(s@, i as int);
        let t = s@.skip(i as int);
        if t.len() > 0 {
            assert(t[0] == s@[i as int]);
        }
    }
    i
}

/// The length of `s` without its trailing whitespace.
pub fn trim_end_index(s: &[char]) -> (r: usize)
    ensures
        r <= s@.len(),
        trim_end(s@) == s@.take(r as int),
{
    let mut j: usize = s.len();
    while j > 0 && is_whitespace(s[j - 1])
        invariant
            j <= s@.len(),
            forall|k: int| j <= k < s@.len() ==> spec_is_whitespace(#[trigger] s@[k]),
        decreases j,
    {
        j -= 1;
    }
    proof {
        lemma_trim_end_take(s@, j as int);
        let t = s@.take(j as int);
        if t.len() > 0 {
            assert(t.last() == s@[j - 1]);
        }
    }
    j
}

pub fn slice_chars(s: &[char], from: usize, to: usize) -> (r: Vec<char>)
    requires
        from <= to <= s@.len(),
    ensures
        r@ == s@.subrange(from as int, to as int),
{
    let mut out: Vec<char> = Vec::new();
    let mut i = from;
    while i < to
        invariant
            from <= i <= to <= s@.len(),
            out@ == s@.subrange(from as int, i as int),
        decreases to - i,
    {
        out.push(s[i]);
        i += 1;
        assert(out@ =~= s@.subrange(from as int, i as int));
    }
    out
}

/// The characters of `s` without leading and trailing whitespace.
pub fn trim_chars(s: &[char]) -> (r: Vec<char>)
    ensures
        r@ == trim(s@),
{
    let start = trim_start_index(s);
    let rest = slice_chars(s, start, s.len());
    assert(rest@ =~= s@.skip(start as int));
    let end = trim_end_index(rest.as_slice());
    slice_chars(rest.as_slice(), 0, end)
}

/// `s` with one `'\r'` taken off its end, if it ends in one.
pub open spec fn strip_cr(s: Seq<char>) -> Seq<char> {
    if s.len() > 0 && s.last() == '\r' {
        s.drop_last()
    } else {
        s
    }
}

/// The lines read so far from `s`, and the line still open.
pub open spec fn lines_state(s: Seq<char>) -> (Seq<Seq<char>>, Seq<char>)
    decreases s.len(),
{
    if s.len() == 0 {
        (seq![], seq![])
    } else {
        let (done, cur) = lines_state(s.drop_last());
        if s.last() == '\n' {
            (done.push(strip_cr(cur)), seq![])
        } else {
            (done, cur.push(s.last()))
        }
    }
}

/// The lines of `s` as `str::lines` gives them: split at `'\n'`, one `'\r'` taken
/// off before each `'\n'`, and no empty line after a final `'\n'`.
pub open spec fn spec_lines(s: Seq<char>) -> Seq<Seq<char>> {
    let (done, cur) = lines_state(s);
    if cur.len() > 0 {
        done.push(cur)
    } else {
        done
    }
}

pub open spec fn chars_views(v: Seq<Vec<char>>) -> Seq<Seq<char>> {
    v.map_values(|c: Vec<char>| c@)
}

fn strip_cr_vec(cur: Vec<char>) -> (r: Vec<char>)
    ensures
        r@ == strip_cr(cur@),
{
    let ghost before = cur@;
    let mut cur = cur;
    if cur.len() > 0 && cur[cur.len() - 1] == '\r' {
        cur.pop();
        assert(cur@ =~= strip_cr(before));
    }
    cur
}

/// The lines of `s`.
pub fn lines_of(s: &[char]) -> (r: Vec<Vec<char>>)
    ensures
        chars_views(r@) == spec_lines(s@),
{
    let mut done: Vec<Vec<char>> = Vec::new();
    let mut cur: Vec<char> = Vec::new();
    let n = s.len();
    for i in 0..n
        invariant
            n == s@.len(),
            (chars_views(done@), cur@) == lines_state(s@.take(i as int)),
    {
        proof {
            assert(s@.take(i + 1).drop_last() =~= s@.take(i as int));
            assert(s@.take(i + 1).last() == s@[i as int]);
        }
        if s[i] == '\n' {
            let line = strip_cr_vec(cur);
            done.push(line);
            cur = Vec::new();
            assert(chars_views(done@) =~= lines_state(s@.take(i + 1)).0);
        } else {
            cur.push(s[i]);
        }
    }
    assert(s@.take(n as int) =~= s@);
    if cur.len() > 0 {
        done.push(cur);
        assert(chars_views(done@) =~= spec_lines(s@));
    }
    done
}

/// The pieces read so far from `s` split at `sep`, and the piece still open.
pub open spec fn split_state(s: Seq<char>, sep: char) -> (Seq<Seq<char>>, Seq<char>)
    decreases s.len(),
{
    if s.len() == 0 {
        (seq![], seq![])
    } else {
        let (done, cur) = split_state(s.drop_last(), sep);
        if s.last() == sep {
            (done.push(cur), seq![])
        } else {
            (done, cur.push(s.last()))
        }
    }
}

/// The pieces of `s` between occurrences of `sep`, as `str::split` gives them.
pub open spec fn spec_split(s: Seq<char>, sep: char) -> Seq<Seq<char>> {
    let (done, cur) = split_state(s, sep);
    done.push(cur)
}

pub fn split_chars(s: &[char], sep: char) -> (r: Vec<Vec<char>>)
    ensures
        chars_views(r@) == spec_split(s@, sep),
{
    let mut done: Vec<Vec<char>> = Vec::new();
    let mut cur: Vec<char> = Vec::new();
    let n = s.len();
    for i in 0..n
        invariant
            n == s@.len(),
            (chars_views(done@), cur@) == split_state(s@.take(i as int), sep),
    {
        proof {
            assert(s@.take(i + 1).drop_last() =~= s@.take(i as int));
            assert(s@.take(i + 1).last() == s@[i as int]);
        }
        if s[i] == sep {
            done.push(cur);
            cur = Vec::new();
            assert(chars_views(done@) =~= split_state(s@.take(i + 1), sep).0);
        } else {
            cur.push(s[i]);
        }
    }
    assert(s@.take(n as int) =~= s@);
    done.push(cur);
    assert(chars_views(done@) =~= spec_split(s@, sep));
    done
}

/// The index of the first `c` in `s`, if there is one.
pub open spec fn first_index_of(s: Seq<char>, c: char, i: int) -> bool {
    0 <= i < s.len() && s[i] == c && forall|k: int| 0 <= k < i ==> s[k] != c
}

pub fn find_char(s: &[char], c: char) -> (r: Option<usize>)
    ensures
        match r {
            Some(i) => first_index_of(s@, c, i as int),
            None => forall|k: int| 0 <= k < s@.len() ==> s@[k] != c,
        },
{
    let n = s.len();
    for i in 0..n
        invariant
            n == s@.len(),
            forall|k: int| 0 <= k < i ==> s@[k] != c,
    {
        if s[i] == c {
            return Some(i);
        }
    }
    None
}


/// Whether `needle` stands in `s` at position `p`.
pub open spec fn occurs_at(s: Seq<char>, needle: Seq<char>, p: int) -> bool {
    0 <= p && p + needle.len() <= s.len() && s.subrange(p, p + needle.len()) == needle
}

/// The first position at or after `i` where `needle` stands in `s`.
pub open spec fn first_from(s: Seq<char>, needle: Seq<char>, i: int) -> Option<int>
    decreases s.len() + 1 - i,
{
    if i < 0 || i + needle.len() > s.len() {
        None
    } else if occurs_at(s, needle, i) {
        Some(i)
    } else {
        first_from(s, needle, i + 1)
    }
}

pub proof fn lemma_first_from(s: Seq<char>, needle: Seq<char>, i: int)
    requires
        0 <= i,
    ensures
        match first_from(s, needle, i) {
            Some(p) => i <= p && occurs_at(s, needle, p) && forall|q: int|
                i <= q < p ==> !occurs_at(s, needle, q),
            None => forall|q: int| i <= q ==> !occurs_at(s, needle, q),
        },
    decreases s.len() + 1 - i,
{
    if i + needle.len() <= s.len() && !occurs_at(s, needle, i) {
        lemma_first_from(s, needle, i + 1);
    }
}

pub(crate) fn occurs_here(s: &[char], needle: &[char], p: usize) -> (r: bool)
    requires
        p + needle@.len() <= s@.len(),
    ensures
        r == occurs_at(s@, needle@, p as int),
{
    let n = s.len();
    let m = needle.len();
    for k in 0..m
        invariant
            m == needle@.len(),
            n == s@.len(),
            p + m <= n,
            forall|j: int| 0 <= j < k ==> s@[p + j] == needle@[j],
    {
        if s[p + k] != needle[k] {
            proof {
                assert(s@.subrange(p as int, p + m)[k as int] != needle@[k as int]);
            }
            return false;
        }
    }
    assert(s@.subrange(p as int, p + m) =~= needle@);
    true
}

/// The first position at or after `from` where `needle` stands in `s`.
pub fn find_from(s: &[char], needle: &[char], from: usize) -> (r: Option<usize>)
    ensures
        match r {
            Some(p) => first_from(s@, needle@, from as int) == Some(p as int),
            None => first_from(s@, needle@, from as int) is None,
        },
{
    proof {
        lemma_first_from(s@, needle@, from as int);
    }
    let n = s.len();
    let m = needle.len();
    if m > n {
        return None;
    }
    if m == 0 {
        if from <= n {
            assert(s@.subrange(from as int, from as int) =~= needle@);
            return Some(from);
        }
        return None;
    }
    let mut p = from;
    while p <= n - m
        invariant
            n == s@.len(),
            m == needle@.len(),
            1 <= m <= n,
            from <= p,
            forall|q: int| from <= q < p ==> !occurs_at(s@, needle@, q),
        decreases n - p,
    {
        if occurs_here(s, needle, p) {
            proof {
                lemma_first_from(s@, needle@, from as int);
                match first_from(s@, needle@, from as int) {
                    Some(q) => {
                        if q < p {
                        } else if q > p {
                        }
                    },
                    None => {},
                }
            }
            return Some(p);
        }
        p += 1;
    }
    proof {
        assert forall|q: int| from <= q implies !occurs_at(s@, needle@, q) by {
            if q >= p {
                assert(q + m > n);
            }
        }
        match first_from(s@, needle@, from as int) {
            Some(q) => {
                assert(occurs_at(s@, needle@, q));
            },
            None => {},
        }
    }
    None
}


/// Whether two strings hold the same characters.
pub fn same_text(a: &str, b: &str) -> (r: bool)
    ensures
        r == (a@ == b@),
{
    let x = chars_of(a);
    let y = chars_of(b);
    if x.len() != y.len() {
        return false;
    }
    let n = x.len();
    for i in 0..n
        invariant
            n == x@.len(),
            n == y@.len(),
            x@ == a@,
            y@ == b@,
            forall|k: int| 0 <= k < i ==> x@[k] == y@[k],
    {
        if x[i] != y[i] {
            return false;
        }
    }
    assert(x@ =~= y@);
    true
}

} // verus!
