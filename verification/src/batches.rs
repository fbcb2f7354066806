use vstd::prelude::*;

verus! {

/// How many entities one request for metadata asks for.
pub const BATCH: usize = 50;

/// How many releases or tracks one page of a discography holds.
pub const PAGE: usize = 50;

pub open spec fn views(v: Seq<String>) -> Seq<Seq<char>> {
    v.map_values(|s: String| s@)
}

/// The keys in order, each at its first occurrence only.
pub open spec fn dedup(s: Seq<Seq<char>>) -> Seq<Seq<char>>
    decreases s.len(),
{
    if s.len() == 0 {
        s
    } else {
        let d = dedup(s.drop_last());
        if s.drop_last().contains(s.last()) {
            d
        } else {
            d.push(s.last())
        }
    }
}

/// The positions at which keys occur for the first time, in order.
pub open spec fn first_positions(s: Seq<Seq<char>>) -> Seq<int>
    decreases s.len(),
{
    if s.len() == 0 {
        Seq::empty()
    } else {
        let f = first_positions(s.drop_last());
        if s.drop_last().contains(s.last()) {
            f
        } else {
            f.push(s.len() - 1)
        }
    }
}

fn contains_key(v: &Vec<String>, upto: usize, key: &String) -> (r: bool)
    requires
        upto <= v@.len(),
    ensures
        r == views(v@).take(upto as int).contains(key@),
{
    let ghost w = views(v@).take(upto as int);
    for i in 0..upto
        invariant
            upto <= v@.len(),
            w == views(v@).take(upto as int),
            forall|j: int| 0 <= j < i ==> w[j] != key@,
    {
        if v[i] == *key {
            assert(w[i as int] == key@);
            return true;
        }
    }
    proof {
        if w.contains(key@) {
            let j = choose|j: int| 0 <= j < w.len() && w[j] == key@;
            assert(w[j] != key@);
        }
    }
    false
}

/// The positions at which keys occur for the first time.
pub fn first_occurrences(keys: &Vec<String>) -> (r: Vec<usize>)
    ensures
        r@.map_values(|i: usize| i as int) == first_positions(views(keys@)),
{
    let mut out: Vec<usize> = Vec::new();
    let n = keys.len();
    for i in 0..n
        invariant
            n == keys@.len(),
            out@.map_values(|k: usize| k as int) == first_positions(views(keys@).take(i as int)),
    {
        let ghost t = views(keys@).take(i + 1);
        proof {
            assert(t.drop_last() =~= views(keys@).take(i as int));
            assert(t.last() == keys@[i as int]@);
        }
        if !contains_key(keys, i, &keys[i]) {
            let ghost before = out@;
            out.push(i);
            assert(out@.map_values(|k: usize| k as int) =~= before.map_values(|k: usize| k as int).push(i as int));
        }
    }
    assert(views(keys@).take(n as int) =~= views(keys@));
    out
}

/// The keys in order, each once, at its first occurrence.
pub fn unique(keys: &Vec<String>) -> (r: Vec<String>)
    ensures
        views(r@) == dedup(views(keys@)),
{
    let mut out: Vec<String> = Vec::new();
    let n = keys.len();
    for i in 0..n
        invariant
            n == keys@.len(),
            views(out@) == dedup(views(keys@).take(i as int)),
    {
        let ghost t = views(keys@).take(i + 1);
        proof {
            assert(t.drop_last() =~= views(keys@).take(i as int));
            assert(t.last() == keys@[i as int]@);
        }
        if !contains_key(keys, i, &keys[i]) {
            let ghost before = out@;
            out.push(keys[i].clone());
            assert(views(out@) =~= views(before).push(keys@[i as int]@));
        }
    }
    assert(views(keys@).take(n as int) =~= views(keys@));
    out
}

/// `s` cut, in order, into runs of `size` (the last may be shorter).
pub open spec fn chunks_of(s: Seq<Seq<char>>, size: nat) -> Seq<Seq<Seq<char>>>
    decreases s.len(),
{
    if s.len() == 0 || size == 0 {
        Seq::empty()
    } else if s.len() <= size {
        seq![s]
    } else {
        seq![s.take(size as int)] + chunks_of(s.skip(size as int), size)
    }
}

/// Keys cut into runs of `size`, in order.
pub fn chunks(keys: Vec<String>, size: usize) -> (r: Vec<Vec<String>>)
    requires
        size > 0,
    ensures
        r@.map_values(|c: Vec<String>| views(c@)) == chunks_of(views(keys@), size as nat),
    decreases keys@.len(),
{
    if keys.len() == 0 {
        let r: Vec<Vec<String>> = Vec::new();
        assert(r@.map_values(|c: Vec<String>| views(c@)) =~= Seq::<Seq<Seq<char>>>::empty());
        return r;
    }
    if keys.len() <= size {
        let mut r: Vec<Vec<String>> = Vec::new();
        let ghost k = views(keys@);
        r.push(keys);
        assert(r@.map_values(|c: Vec<String>| views(c@)) =~= seq![k]);
        return r;
    }
    let mut head = keys;
    let ghost all = views(head@);
    let tail = head.split_off(size);
    assert(views(head@) =~= all.take(size as int));
    assert(views(tail@) =~= all.skip(size as int));
    let rest = chunks(tail, size);
    let mut r: Vec<Vec<String>> = Vec::new();
    r.push(head);
    let ghost first = r@;
    let mut rest = rest;
    r.append(&mut rest);
    assert(r@.map_values(|c: Vec<String>| views(c@)) =~= seq![all.take(size as int)] + chunks_of(
        all.skip(size as int),
        size as nat,
    ));
    r
}

/// The requests for metadata of `uris`: each uri once, in order, `BATCH` to a
/// request.
pub fn metadata_batches(uris: &Vec<String>) -> (r: Vec<Vec<String>>)
    ensures
        r@.map_values(|c: Vec<String>| views(c@)) == chunks_of(dedup(views(uris@)), BATCH as nat),
{
    chunks(unique(uris), BATCH)
}

/// The last position of `key` among `found`.
pub open spec fn last_position(found: Seq<Seq<char>>, key: Seq<char>) -> Option<int>
    decreases found.len(),
{
    if found.len() == 0 {
        None
    } else if found.last() == key {
        Some(found.len() - 1)
    } else {
        last_position(found.drop_last(), key)
    }
}

/// For each key asked for, in order, where the answer for it stands among `found`
/// (the last answer, where it came more than once); keys without an answer are left
/// out.
pub open spec fn arranged(order: Seq<Seq<char>>, found: Seq<Seq<char>>) -> Seq<int>
    decreases order.len(),
{
    if order.len() == 0 {
        Seq::empty()
    } else {
        let a = arranged(order.drop_last(), found);
        match last_position(found, order.last()) {
            Some(k) => a.push(k),
            None => a,
        }
    }
}

fn last_position_of(found: &Vec<String>, key: &String) -> (r: Option<usize>)
    ensures
        match r {
            Some(k) => last_position(views(found@), key@) == Some(k as int),
            None => last_position(views(found@), key@) is None,
        },
{
    let mut k = found.len();
    assert(views(found@).take(k as int) =~= views(found@));
    while k > 0
        invariant
            k <= found@.len(),
            last_position(views(found@), key@) == last_position(views(found@).take(k as int), key@),
        decreases k,
    {
        assert(views(found@).take(k as int).drop_last() =~= views(found@).take(k - 1));
        if found[k - 1] == *key {
            return Some(k - 1);
        }
        k -= 1;
    }
    None
}

/// Where the answer for each key asked for stands among the keys answered.
pub fn arrange(order: &Vec<String>, found: &Vec<String>) -> (r: Vec<usize>)
    ensures
        r@.map_values(|i: usize| i as int) == arranged(views(order@), views(found@)),
{
    let mut out: Vec<usize> = Vec::new();
    let n = order.len();
    for i in 0..n
        invariant
            n == order@.len(),
            out@.map_values(|k: usize| k as int) == arranged(views(order@).take(i as int), views(found@)),
    {
        let ghost t = views(order@).take(i + 1);
        proof {
            assert(t.drop_last() =~= views(order@).take(i as int));
            assert(t.last() == order@[i as int]@);
        }
        match last_position_of(found, &order[i]) {
            Some(k) => {
                let ghost before = out@;
                out.push(k);
                assert(out@.map_values(|j: usize| j as int) =~= before.map_values(|j: usize| j as int).push(k as int));
            },
            None => {},
        }
    }
    assert(views(order@).take(n as int) =~= views(order@));
    out
}

/// The bounds of the page of a list of `len` items that starts at `offset` (0 where
/// none is given; clamped to the list): its start, its end, and where the next page
/// starts, if one follows.
pub open spec fn spec_page_bounds(len: nat, offset: Option<usize>) -> (nat, nat, Option<nat>) {
    let asked: nat = match offset {
        Some(o) => o as nat,
        None => 0,
    };
    let start: nat = if asked < len {
        asked
    } else {
        len
    };
    let end: nat = if start + PAGE < len {
        (start + PAGE) as nat
    } else {
        len
    };
    (start, end, if end < len {
        Some(end)
    } else {
        None
    })
}

/// The page of `items` that starts at `offset`, the number of items, and where the
/// next page starts.
pub fn page<T>(items: Vec<T>, offset: Option<usize>) -> (r: (Vec<T>, usize, Option<usize>))
    ensures
        ({
            let (start, end, next) = spec_page_bounds(items@.len(), offset);
            &&& r.0@ == items@.subrange(start as int, end as int)
            &&& r.1 == items@.len()
            &&& match r.2 {
                Some(n) => next == Some(n as nat),
                None => next is None,
            }
        }),
{
    let len = items.len();
    let asked = match offset {
        Some(o) => o,
        None => 0,
    };
    let start = if asked < len {
        asked
    } else {
        len
    };
    let end = if start < len && len - start > PAGE {
        start + PAGE
    } else {
        len
    };
    let mut rest = items;
    let ghost all = rest@;
    rest.truncate(end);
    let chosen = rest.split_off(start);
    assert(chosen@ =~= all.subrange(start as int, end as int));
    let next = if end < len {
        Some(end)
    } else {
        None
    };
    (chosen, len, next)
}


/// Runs joined back into one sequence.
pub open spec fn flatten(c: Seq<Seq<Seq<char>>>) -> Seq<Seq<char>>
    decreases c.len(),
{
    if c.len() == 0 {
        Seq::empty()
    } else {
        c[0] + flatten(c.drop_first())
    }
}

/// Cutting keys into runs loses and adds nothing: joined, the runs are the keys, and
/// each run holds between one and `size` keys.
pub proof fn law_chunks_rebuild(s: Seq<Seq<char>>, size: nat)
    requires
        size > 0,
    ensures
        flatten(chunks_of(s, size)) == s,
        forall|i: int|
            0 <= i < chunks_of(s, size).len() ==> 0 < (#[trigger] chunks_of(s, size)[i]).len() <= size,
    decreases s.len(),
{
    if s.len() == 0 {
    } else if s.len() <= size {
        assert(chunks_of(s, size) =~= seq![s]);
        assert(seq![s].drop_first() =~= Seq::<Seq<Seq<char>>>::empty());
        assert(flatten(Seq::<Seq<Seq<char>>>::empty()) =~= Seq::<Seq<char>>::empty());
        assert(seq![s][0] == s);
        assert(flatten(seq![s]) =~= s);
    } else {
        let rest = chunks_of(s.skip(size as int), size);
        law_chunks_rebuild(s.skip(size as int), size);
        let c = chunks_of(s, size);
        assert(c =~= seq![s.take(size as int)] + rest);
        assert(c.drop_first() =~= rest);
        assert(flatten(c) =~= s.take(size as int) + s.skip(size as int));
        assert(s.take(size as int) + s.skip(size as int) =~= s);
        assert forall|i: int| 0 <= i < c.len() implies 0 < (#[trigger] c[i]).len() <= size by {
            if i > 0 {
                assert(c[i] == rest[i - 1]);
            }
        }
    }
}

/// Deduplicating keeps each key once: the result holds no key twice, and holds
/// exactly the keys of the input.
pub proof fn law_dedup(s: Seq<Seq<char>>)
    ensures
        forall|i: int, j: int| 0 <= i < j < dedup(s).len() ==> dedup(s)[i] != dedup(s)[j],
        forall|x: Seq<char>| dedup(s).contains(x) <==> s.contains(x),
    decreases s.len(),
{
    if s.len() > 0 {
        let init = s.drop_last();
        law_dedup(init);
        assert forall|x: Seq<char>| s.contains(x) <==> (init.contains(x) || x == s.last()) by {
            if s.contains(x) {
                let k = choose|k: int| 0 <= k < s.len() && s[k] == x;
                if k < s.len() - 1 {
                    assert(init[k] == x);
                }
            }
            if init.contains(x) {
                let k = choose|k: int| 0 <= k < init.len() && init[k] == x;
                assert(s[k] == x);
            }
            if x == s.last() {
                assert(s[s.len() - 1] == x);
            }
        }
        if !init.contains(s.last()) {
            let d = dedup(init);
            assert(!d.contains(s.last()));
            assert forall|i: int, j: int| 0 <= i < j < d.push(s.last()).len() implies d.push(
                s.last(),
            )[i] != d.push(s.last())[j] by {
                if j == d.len() {
                    assert(d[i] == d.push(s.last())[i]);
                }
            }
            assert forall|x: Seq<char>| d.push(s.last()).contains(x) <==> (d.contains(x) || x
                == s.last()) by {
                if d.push(s.last()).contains(x) {
                    let k = choose|k: int| 0 <= k < d.push(s.last()).len() && d.push(s.last())[k] == x;
                    if k < d.len() {
                        assert(d[k] == x);
                    }
                }
                if d.contains(x) {
                    let k = choose|k: int| 0 <= k < d.len() && d[k] == x;
                    assert(d.push(s.last())[k] == x);
                }
                if x == s.last() {
                    assert(d.push(s.last())[d.len() as int] == x);
                }
            }
        }
    }
}

/// The items read page after page, from the page at `offset` on, following each
/// page's `next`.
pub open spec fn read_from<T>(s: Seq<T>, offset: nat) -> Seq<T>
    decreases s.len() - offset,
{
    let (start, end, next) = spec_page_bounds(s.len(), Some(offset as usize));
    match next {
        Some(n) => if n > offset {
            s.subrange(start as int, end as int) + read_from(s, n)
        } else {
            s.subrange(start as int, end as int)
        },
        None => s.subrange(start as int, end as int),
    }
}

/// Following the pages from an offset reads every item from there to the end, each
/// once and in order.
pub proof fn law_pages_cover<T>(s: Seq<T>, offset: nat)
    requires
        offset <= usize::MAX,
        s.len() <= usize::MAX,
    ensures
        read_from(s, offset) == s.skip(if offset < s.len() {
            offset as int
        } else {
            s.len() as int
        }),
    decreases s.len() - offset,
{
    let (start, end, next) = spec_page_bounds(s.len(), Some(offset as usize));
    match next {
        Some(n) => {
            assert(n > offset);
            law_pages_cover(s, n);
            assert(s.subrange(start as int, end as int) + s.skip(n as int) =~= s.skip(start as int));
        },
        None => {
            assert(s.subrange(start as int, end as int) =~= s.skip(start as int));
        },
    }
}

} // verus!
