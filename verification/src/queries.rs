use crate::search::pairs_view;
use crate::text::{chars_of, find_from, first_from, lemma_first_from, occurs_at, slice_chars, string_from_chars};
use crate::timing::{index_of, index_of_char};
use vstd::prelude::*;

verus! {

/// What stands between a persisted query's name and its hash in the web player's
/// bundle: `"name","query","<sha256>"`.
pub const QUERY_MARKER: &'static str = "\",\"query\",\"";

/// Where the bundle's script for the web player is named in its page.
pub const URL_START: &'static str = "https://";

pub const BUNDLE_PATH: &'static str = "/web-player/web-player.";

pub const BUNDLE_SUFFIX: &'static str = ".js";

/// The positions of `needle` in `s` from `i` on, left to right, each search going on
/// after the end of the last match (so matches do not overlap).
pub open spec fn positions_from(s: Seq<char>, needle: Seq<char>, i: int) -> Seq<int>
    decreases s.len() + 1 - i,
    when needle.len() > 0
{
    match first_from(s, needle, i) {
        None => Seq::empty(),
        Some(p) => {
            proof {
                lemma_first_from(s, needle, i);
            }
            seq![p] + positions_from(s, needle, p + needle.len())
        },
    }
}

/// The last position of `c` in `s`.
pub open spec fn last_index_of(s: Seq<char>, c: char) -> Option<int>
    decreases s.len(),
{
    if s.len() == 0 {
        None
    } else if s.last() == c {
        Some(s.len() - 1)
    } else {
        last_index_of(s.drop_last(), c)
    }
}

pub proof fn lemma_last_index_of(s: Seq<char>, c: char)
    ensures
        last_index_of(s, c) matches Some(k) ==> 0 <= k < s.len() && s[k] == c,
    decreases s.len(),
{
    if s.len() > 0 && s.last() != c {
        lemma_last_index_of(s.drop_last(), c);
    }
}

pub open spec fn is_hex_digit(c: char) -> bool {
    ('0' <= c && c <= '9') || ('a' <= c && c <= 'f') || ('A' <= c && c <= 'F')
}

/// The persisted query registered at a match of the marker at `p`: the name in the
/// quotes before it and the hash in the quotes after it, when the name is not empty
/// and the hash is 64 hexadecimal digits.
pub open spec fn query_at(s: Seq<char>, p: int) -> Option<(Seq<char>, Seq<char>)> {
    match last_index_of(s.take(p), '"') {
        None => None,
        Some(start) => {
            let name = s.subrange(start + 1, p);
            let tail = s.skip(p + QUERY_MARKER@.len());
            match index_of(tail, '"') {
                None => None,
                Some(end) => {
                    let hash = tail.take(end as int);
                    if name.len() > 0 && hash.len() == 64 && forall|k: int|
                        0 <= k < hash.len() ==> is_hex_digit(#[trigger] hash[k]) {
                        Some((name, hash))
                    } else {
                        None
                    }
                },
            }
        },
    }
}

/// The queries registered at the positions `ps`, a later one replacing an earlier
/// one of the same name.
pub open spec fn queries_at(s: Seq<char>, ps: Seq<int>) -> Map<Seq<char>, Seq<char>>
    decreases ps.len(),
{
    if ps.len() == 0 {
        Map::empty()
    } else {
        let before = queries_at(s, ps.drop_last());
        match query_at(s, ps.last()) {
            Some((name, hash)) => before.insert(name, hash),
            None => before,
        }
    }
}

/// Every persisted query that a bundle registers, by name.
pub open spec fn spec_parse(script: Seq<char>) -> Map<Seq<char>, Seq<char>> {
    queries_at(script, positions_from(script, QUERY_MARKER@, 0))
}

/// Whether a list of pairs holds each key once and holds exactly the map `m`.
pub open spec fn lists_map(v: Seq<(Seq<char>, Seq<char>)>, m: Map<Seq<char>, Seq<char>>) -> bool {
    &&& forall|i: int, j: int| 0 <= i < j < v.len() ==> v[i].0 != v[j].0
    &&& forall|i: int| 0 <= i < v.len() ==> #[trigger] m.contains_key(v[i].0) && m[v[i].0] == v[i].1
    &&& forall|k: Seq<char>| #[trigger] m.contains_key(k) ==> exists|i: int| 0 <= i < v.len() && v[i].0 == k
}

fn last_quote(s: &[char], p: usize) -> (r: Option<usize>)
    requires
        p <= s@.len(),
    ensures
        match r {
            Some(k) => last_index_of(s@.take(p as int), '"') == Some(k as int),
            None => last_index_of(s@.take(p as int), '"') is None,
        },
{
    let mut k = p;
    while k > 0
        invariant
            k <= p <= s@.len(),
            last_index_of(s@.take(p as int), '"') == last_index_of(s@.take(k as int), '"'),
        decreases k,
    {
        assert(s@.take(k as int).drop_last() =~= s@.take(k - 1));
        if s[k - 1] == '"' {
            return Some(k - 1);
        }
        k -= 1;
    }
    None
}

fn query_here(s: &[char], marker_len: usize, p: usize) -> (r: Option<(String, String)>)
    requires
        marker_len == QUERY_MARKER@.len(),
        p + marker_len <= s@.len(),
    ensures
        match r {
            Some((name, hash)) => query_at(s@, p as int) == Some((name@, hash@)),
            None => query_at(s@, p as int) is None,
        },
{
    let total = s.len();
    let start = match last_quote(s, p) {
        Some(k) => k,
        None => return None,
    };
    proof {
        lemma_last_index_of(s@.take(p as int), '"');
    }
    let tail = slice_chars(s, p + marker_len, total);
    assert(tail@ =~= s@.skip(p + QUERY_MARKER@.len()));
    let end = match index_of_char(tail.as_slice(), '"') {
        Some(e) => e,
        None => return None,
    };
    let name = slice_chars(s, start + 1, p);
    let hash = slice_chars(tail.as_slice(), 0, end);
    assert(hash@ =~= tail@.take(end as int));
    assert(name@ =~= s@.subrange(start + 1, p as int));
    if name.len() == 0 || hash.len() != 64 {
        return None;
    }
    let ghost expected = query_at(s@, p as int);
    assert(expected == if forall|k: int| 0 <= k < hash@.len() ==> is_hex_digit(#[trigger] hash@[k]) {
        Some((name@, hash@))
    } else {
        None::<(Seq<char>, Seq<char>)>
    });
    for k in 0..64
        invariant
            hash@.len() == 64,
            expected == query_at(s@, p as int),
            expected == if forall|k: int| 0 <= k < hash@.len() ==> is_hex_digit(#[trigger] hash@[k]) {
                Some((name@, hash@))
            } else {
                None::<(Seq<char>, Seq<char>)>
            },
            forall|j: int| 0 <= j < k ==> is_hex_digit(#[trigger] hash@[j]),
    {
        let c = hash[k];
        if !(('0' <= c && c <= '9') || ('a' <= c && c <= 'f') || ('A' <= c && c <= 'F')) {
            assert(!is_hex_digit(hash@[k as int]));
            return None;
        }
    }
    Some((string_from_chars(name.as_slice()), string_from_chars(hash.as_slice())))
}

fn upsert(out: &mut Vec<(String, String)>, name: String, hash: String, Ghost(m): Ghost<Map<Seq<char>, Seq<char>>>)
    requires
        lists_map(pairs_view(old(out)@), m),
    ensures
        lists_map(pairs_view(final(out)@), m.insert(name@, hash@)),
{
    let n = out.len();
    for k in 0..n
        invariant
            n == out@.len(),
            out@ == old(out)@,
            lists_map(pairs_view(out@), m),
            forall|j: int| 0 <= j < k ==> out@[j].0@ != name@,
    {
        if out[k].0 == name {
            let ghost before = pairs_view(out@);
            out.set(k, (name, hash));
            proof {
                let v = pairs_view(out@);
                let m2 = m.insert(name@, hash@);
                assert(v =~= before.update(k as int, (name@, hash@)));
                assert(before[k as int].0 == name@);
                assert forall|i: int, j: int| 0 <= i < j < v.len() implies v[i].0 != v[j].0 by {
                    assert(v[i].0 == before[i].0);
                    assert(v[j].0 == before[j].0);
                }
                assert forall|i: int| 0 <= i < v.len() implies #[trigger] m2.contains_key(v[i].0)
                    && m2[v[i].0] == v[i].1 by {
                    if i != k {
                        assert(v[i] == before[i]);
                        if i < k {
                            assert(before[i].0 != before[k as int].0);
                        } else {
                            assert(before[k as int].0 != before[i].0);
                        }
                        assert(m.contains_key(before[i].0));
                    }
                }
                assert forall|key: Seq<char>| #[trigger] m2.contains_key(key) implies exists|i: int|
                    0 <= i < v.len() && v[i].0 == key by {
                    if key == name@ {
                        assert(v[k as int].0 == key);
                    } else {
                        let i = choose|i: int| 0 <= i < before.len() && before[i].0 == key;
                        assert(v[i].0 == key);
                    }
                }
            }
            return;
        }
    }
    let ghost before = pairs_view(out@);
    out.push((name, hash));
    proof {
        let v = pairs_view(out@);
        let m2 = m.insert(name@, hash@);
        assert(v =~= before.push((name@, hash@)));
        assert(!m.contains_key(name@)) by {
            if m.contains_key(name@) {
                let i = choose|i: int| 0 <= i < before.len() && before[i].0 == name@;
                assert(out@[i].0@ == before[i].0);
            }
        }
        assert forall|i: int, j: int| 0 <= i < j < v.len() implies v[i].0 != v[j].0 by {
            if j == v.len() - 1 {
                assert(before[i].0 == out@[i].0@);
            }
        }
        assert forall|i: int| 0 <= i < v.len() implies #[trigger] m2.contains_key(v[i].0)
            && m2[v[i].0] == v[i].1 by {
            if i < before.len() {
                assert(v[i] == before[i]);
                assert(before[i].0 != name@);
            }
        }
        assert forall|key: Seq<char>| #[trigger] m2.contains_key(key) implies exists|i: int|
            0 <= i < v.len() && v[i].0 == key by {
            if key == name@ {
                assert(v[v.len() - 1].0 == key);
            } else {
                let i = choose|i: int| 0 <= i < before.len() && before[i].0 == key;
                assert(v[i].0 == key);
            }
        }
    }
}

/// Every persisted query that the web player's bundle registers, as (name, hash)
/// pairs, each name once, with the hash of its last registration.
pub fn parse(script: &str) -> (r: Vec<(String, String)>)
    ensures
        lists_map(pairs_view(r@), spec_parse(script@)),
{
    let s = chars_of(script);
    let marker = chars_of(QUERY_MARKER);
    proof {
        reveal_strlit("\",\"query\",\"");
    }
    let total = s.len();
    let mut out: Vec<(String, String)> = Vec::new();
    let mut i: usize = 0;
    let ghost mut done: Seq<int> = Seq::empty();
    assert(done + positions_from(s@, marker@, 0) =~= positions_from(s@, marker@, 0));
    loop
        invariant
            s@ == script@,
            marker@ == QUERY_MARKER@,
            marker@.len() == 11,
            i <= s@.len(),
            total == s@.len(),
            done + positions_from(s@, marker@, i as int) == positions_from(s@, marker@, 0),
            lists_map(pairs_view(out@), queries_at(s@, done)),
        ensures
            s@ == script@,
            marker@ == QUERY_MARKER@,
            done == positions_from(s@, marker@, 0),
            lists_map(pairs_view(out@), queries_at(s@, done)),
        decreases s@.len() + 1 - i,
    {
        match find_from(s.as_slice(), marker.as_slice(), i) {
            None => {
                assert(positions_from(s@, marker@, i as int) =~= Seq::<int>::empty());
                assert(done =~= positions_from(s@, marker@, 0));
                break;
            },
            Some(p) => {
                proof {
                    lemma_first_from(s@, marker@, i as int);
                }
                assert(p + marker@.len() <= total);
                let found = query_here(s.as_slice(), marker.len(), p);
                let ghost before = queries_at(s@, done);
                proof {
                    assert(done.push(p as int).drop_last() =~= done);
                    assert(done + positions_from(s@, marker@, i as int) =~= done.push(p as int)
                        + positions_from(s@, marker@, p + 11));
                }
                match found {
                    Some((name, hash)) => {
                        upsert(&mut out, name, hash, Ghost(before));
                    },
                    None => {},
                }
                proof {
                    done = done.push(p as int);
                }
                i = p + marker.len();
            },
        }
    }
    out
}

/// Whether a URL names the web player's script bundle.
pub open spec fn is_bundle_url(url: Seq<char>) -> bool {
    &&& exists|k: int| occurs_at(url, BUNDLE_PATH@, k)
    &&& url.len() >= BUNDLE_SUFFIX@.len()
    &&& url.skip(url.len() - BUNDLE_SUFFIX@.len()) == BUNDLE_SUFFIX@
}

/// The URL that starts at `p`: up to the next `"`, or to the end.
pub open spec fn url_at(s: Seq<char>, p: int) -> Seq<char> {
    let tail = s.skip(p);
    match index_of(tail, '"') {
        Some(e) => tail.take(e as int),
        None => tail,
    }
}

/// The first bundle URL among the `https://` URLs of a page, from match `k` of
/// `ps` on.
pub open spec fn first_bundle(s: Seq<char>, ps: Seq<int>, k: int) -> Option<Seq<char>>
    decreases ps.len() - k,
{
    if k < 0 || k >= ps.len() {
        None
    } else if is_bundle_url(url_at(s, ps[k])) {
        Some(url_at(s, ps[k]))
    } else {
        first_bundle(s, ps, k + 1)
    }
}

/// The web player's script bundle, named in its page.
pub open spec fn spec_bundle(page: Seq<char>) -> Option<Seq<char>> {
    first_bundle(page, positions_from(page, URL_START@, 0), 0)
}

fn bundle_url(url: &[char]) -> (r: bool)
    ensures
        r == is_bundle_url(url@),
{
    let path = chars_of(BUNDLE_PATH);
    let suffix = chars_of(BUNDLE_SUFFIX);
    proof {
        lemma_first_from(url@, BUNDLE_PATH@, 0);
    }
    let contains = find_from(url, path.as_slice(), 0).is_some();
    proof {
        if !contains {
            assert forall|k: int| !occurs_at(url@, BUNDLE_PATH@, k) by {
                if k < 0 {
                }
            }
        }
    }
    if !contains || url.len() < suffix.len() {
        return false;
    }
    let tail = slice_chars(url, url.len() - suffix.len(), url.len());
    assert(tail@ =~= url@.skip(url@.len() - BUNDLE_SUFFIX@.len()));
    let n = tail.len();
    for k in 0..n
        invariant
            n == tail@.len(),
            n == suffix@.len(),
            suffix@ == BUNDLE_SUFFIX@,
            tail@ == url@.skip(url@.len() - BUNDLE_SUFFIX@.len()),
            url@.len() >= BUNDLE_SUFFIX@.len(),
            exists|k: int| occurs_at(url@, BUNDLE_PATH@, k),
            forall|j: int| 0 <= j < k ==> tail@[j] == suffix@[j],
    {
        if tail[k] != suffix[k] {
            assert(tail@ != suffix@);
            return false;
        }
    }
    assert(tail@ =~= suffix@);
    true
}

/// The URL of the web player's script bundle, named in its page.
pub fn bundle(page: &str) -> (r: Option<String>)
    ensures
        opt_chars(r) == spec_bundle(page@),
{
    let s = chars_of(page);
    let start = chars_of(URL_START);
    proof {
        reveal_strlit("https://");
    }
    let mut i: usize = 0;
    let ghost mut done: Seq<int> = Seq::empty();
    assert(done + positions_from(s@, start@, 0) =~= positions_from(s@, start@, 0));
    loop
        invariant
            s@ == page@,
            start@ == URL_START@,
            start@.len() == 8,
            i <= s@.len(),
            done + positions_from(s@, start@, i as int) == positions_from(s@, start@, 0),
            first_bundle(s@, positions_from(s@, start@, 0), 0) == first_bundle(
                s@,
                positions_from(s@, start@, 0),
                done.len() as int,
            ),
        decreases s@.len() + 1 - i,
    {
        let ghost ps = positions_from(s@, start@, 0);
        match find_from(s.as_slice(), start.as_slice(), i) {
            None => {
                assert(positions_from(s@, start@, i as int) =~= Seq::<int>::empty());
                assert(done =~= ps);
                return None;
            },
            Some(p) => {
                proof {
                    lemma_first_from(s@, start@, i as int);
                    assert(ps[done.len() as int] == p);
                }
                let tail = slice_chars(s.as_slice(), p, s.len());
                assert(tail@ =~= s@.skip(p as int));
                let url = match index_of_char(tail.as_slice(), '"') {
                    Some(e) => slice_chars(tail.as_slice(), 0, e),
                    None => tail,
                };
                assert(url@ =~= url_at(s@, p as int));
                if bundle_url(url.as_slice()) {
                    return Some(string_from_chars(url.as_slice()));
                }
                proof {
                    assert(done + positions_from(s@, start@, i as int) =~= done.push(p as int)
                        + positions_from(s@, start@, p + 8));
                    done = done.push(p as int);
                }
                i = p + start.len();
            },
        }
    }
}

pub open spec fn opt_chars(o: Option<String>) -> Option<Seq<char>> {
    match o {
        Some(s) => Some(s@),
        None => None,
    }
}


/// A persisted query: a name, and a hash of 64 hexadecimal digits.
pub open spec fn is_query(name: Seq<char>, hash: Seq<char>) -> bool {
    &&& name.len() > 0
    &&& hash.len() == 64
    &&& forall|k: int| 0 <= k < hash.len() ==> is_hex_digit(#[trigger] hash[k])
}

proof fn lemma_queries_at(s: Seq<char>, ps: Seq<int>)
    ensures
        forall|name: Seq<char>| #[trigger] queries_at(s, ps).contains_key(name) ==> is_query(name, queries_at(s, ps)[name]),
    decreases ps.len(),
{
    if ps.len() > 0 {
        lemma_queries_at(s, ps.drop_last());
        let before = queries_at(s, ps.drop_last());
        match query_at(s, ps.last()) {
            Some((n, h)) => {
                lemma_query_at(s, ps.last());
                assert forall|name: Seq<char>| #[trigger] queries_at(s, ps).contains_key(name) implies is_query(
                    name,
                    queries_at(s, ps)[name],
                ) by {
                    if name != n {
                        assert(before.contains_key(name));
                    }
                }
            },
            None => {},
        }
    }
}

proof fn lemma_query_at(s: Seq<char>, p: int)
    ensures
        query_at(s, p) matches Some((n, h)) ==> is_query(n, h),
{
}

/// Every query read from a bundle has a name and a well-formed hash.
pub proof fn law_parsed_queries_are_well_formed(script: Seq<char>)
    ensures
        forall|name: Seq<char>| #[trigger] spec_parse(script).contains_key(name) ==> is_query(name, spec_parse(script)[name]),
{
    lemma_queries_at(script, positions_from(script, QUERY_MARKER@, 0));
}

} // verus!
