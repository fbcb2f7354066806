use crate::model::{AlbumRef, ArtistRef, TrackInfo};
use crate::numbers::{signed_chars, spec_signed_digits};
use crate::text::{chars_of, string_from_chars, trim, trim_chars};
use nucleo_matcher::pattern::{AtomKind, CaseMatching, Normalization, Pattern};
use nucleo_matcher::{Config, Matcher, Utf32Str};
use vstd::prelude::*;

verus! {

/// Something that a local search can find: the text it is matched by.
pub trait SearchDocument {
    /// The text the item is matched by.
    spec fn document(&self) -> Seq<char>;

    fn search_document(&self) -> (r: String)
        ensures
            r@ == self.document(),
    ;
}

/// The score that `nucleo_matcher` gives `text` for the query `query` (read as
/// words, each matched as a substring ignoring case and, where the query has none,
/// accents), or `None` where a word does not match.
pub uninterp spec fn pattern_score(query: Seq<char>, text: Seq<char>) -> Option<u32>;

/// Builds `Pattern::new(query, CaseMatching::Ignore, Normalization::Smart,
/// AtomKind::Substring)` of `nucleo_matcher` and calls `Pattern::score` on `text`
/// with a default matcher. The contract names the result `pattern_score(query,
/// text)`: the score depends on the query and the text alone (the matcher holds
/// only its configuration and scratch space).
#[verifier::external_body]
fn score(query: &str, text: &str) -> (r: Option<u32>)
    ensures
        r == pattern_score(query@, text@),
{
    let pattern = Pattern::new(query, CaseMatching::Ignore, Normalization::Smart, AtomKind::Substring);
    let mut matcher = Matcher::new(Config::DEFAULT);
    let mut buf = Vec::new();
    pattern.score(Utf32Str::new(text, &mut buf), &mut matcher)
}

/// Item `i` matches: it has a score.
pub open spec fn matches(scores: Seq<Option<u32>>, i: int) -> bool {
    0 <= i < scores.len() && scores[i] is Some
}

/// Item `a` ranks before item `b`: it scores higher, or as high and comes first.
pub open spec fn ranks_before(scores: Seq<Option<u32>>, a: int, b: int) -> bool {
    let sa = scores[a]->0;
    let sb = scores[b]->0;
    sa > sb || (sa == sb && a < b)
}

/// `r` lists the items that have a score, highest first, ties in their own order.
pub open spec fn is_score_ranking(scores: Seq<Option<u32>>, r: Seq<usize>) -> bool {
    &&& forall|k: int| 0 <= k < r.len() ==> matches(scores, #[trigger] r[k] as int)
    &&& forall|i: int| matches(scores, i) ==> #[trigger] r.contains(i as usize)
    &&& forall|k: int, l: int|
        0 <= k < l < r.len() ==> ranks_before(scores, #[trigger] r[k] as int, #[trigger] r[l] as int)
}

/// The scores that the matcher gives the documents for a query.
pub open spec fn scores_of(query: Seq<char>, docs: Seq<Seq<char>>) -> Seq<Option<u32>> {
    Seq::new(docs.len(), |i: int| pattern_score(query, docs[i]))
}

/// `r` lists the documents that match the query, strongest first, ties in their own
/// order.
pub open spec fn is_ranking(query: Seq<char>, docs: Seq<Seq<char>>, r: Seq<usize>) -> bool {
    is_score_ranking(scores_of(query, docs), r)
}

pub open spec fn texts(docs: Seq<String>) -> Seq<Seq<char>> {
    docs.map_values(|d: String| d@)
}

/// The ranking of documents for a query: with a blank query every index in order,
/// else the matching ones, strongest first, ties in their own order.
pub open spec fn ranking_of(query: Seq<char>, docs: Seq<Seq<char>>, r: Seq<usize>) -> bool {
    &&& trim(query).len() == 0 ==> r == Seq::new(docs.len(), |i: int| i as usize)
    &&& trim(query).len() > 0 ==> is_ranking(trim(query), docs, r)
}

/// The documents that the items are matched by.
pub open spec fn documents_of<T: SearchDocument>(items: Seq<T>) -> Seq<Seq<char>> {
    Seq::new(items.len(), |i: int| items[i].document())
}

/// The indices of the items whose documents match `query`, strongest match first and
/// ties in their own order; with a blank query, every index in order. The ranking
/// is that of the documents the items give.
pub fn ranked_indices<T: SearchDocument>(items: &[T], query: &str) -> (r: Vec<usize>)
    ensures
        ranking_of(query@, documents_of(items@), r@),
{
    let mut docs: Vec<String> = Vec::new();
    let n = items.len();
    for i in 0..n
        invariant
            n == items@.len(),
            docs@.len() == i,
            forall|k: int| 0 <= k < i ==> (#[trigger] docs@[k])@ == items@[k].document(),
    {
        docs.push(items[i].search_document());
    }
    let r = rank_documents(&docs, query);
    assert(texts(docs@) =~= documents_of(items@));
    r
}

/// The indices of the documents that match `query`, strongest match first and ties
/// in their own order; with a blank query, every index in order.
pub fn rank_documents(documents: &Vec<String>, query: &str) -> (r: Vec<usize>)
    ensures
        ranking_of(query@, texts(documents@), r@),
{
    let items = documents;
    let n = items.len();
    let all = chars_of(query);
    let q = trim_chars(all.as_slice());
    if q.len() == 0 {
        let mut r: Vec<usize> = Vec::new();
        for i in 0..n
            invariant
                r@ == Seq::new(i as nat, |k: int| k as usize),
        {
            r.push(i);
            assert(r@ =~= Seq::new((i + 1) as nat, |k: int| k as usize));
        }
        return r;
    }
    let query = string_from_chars(q.as_slice());
    let mut scores: Vec<Option<u32>> = Vec::new();
    for i in 0..n
        invariant
            n == items@.len(),
            query@ == q@,
            scores@.len() == i,
            forall|k: int| 0 <= k < i ==> #[trigger] scores@[k] == pattern_score(q@, items@[k]@),
    {
        scores.push(score(query.as_str(), items[i].as_str()));
    }
    let r = rank_scores(&scores);
    assert(scores@ =~= scores_of(q@, texts(items@)));
    r
}

/// The indices of the items that have a score, highest score first and ties in
/// their own order.
pub fn rank_scores(scores: &Vec<Option<u32>>) -> (r: Vec<usize>)
    ensures
        is_score_ranking(scores@, r@),
{
    let n = scores.len();
    let ghost sc = scores@;
    let mut ranked: Vec<(usize, u32)> = Vec::new();
    for i in 0..n
        invariant
            n == sc.len(),
            sc == scores@,
            forall|k: int|
                0 <= k < ranked@.len() ==> #[trigger] ranked@[k].0 < i && sc[ranked@[k].0 as int]
                    == Some(ranked@[k].1),
            forall|j: int|
                0 <= j < i && matches(sc, j) ==> exists|k: int|
                    0 <= k < ranked@.len() && #[trigger] ranked@[k].0 == j as usize,
            forall|k: int, l: int|
                0 <= k < l < ranked@.len() ==> ranks_before(
                    sc,
                    #[trigger] ranked@[k].0 as int,
                    #[trigger] ranked@[l].0 as int,
                ),
    {
        match scores[i] {
            Some(s) => {
                let mut at: usize = 0;
                while at < ranked.len() && ranked[at].1 >= s
                    invariant
                        at <= ranked@.len(),
                        forall|k: int| 0 <= k < at ==> #[trigger] ranked@[k].1 >= s,
                    decreases ranked@.len() - at,
                {
                    at += 1;
                }
                let ghost before = ranked@;
                ranked.insert(at, (i, s));
                proof {
                    assert forall|k: int, l: int|
                        0 <= k < l < ranked@.len() implies ranks_before(
                        sc,
                        #[trigger] ranked@[k].0 as int,
                        #[trigger] ranked@[l].0 as int,
                    ) by {
                        if k < at && l < at {
                            assert(ranked@[k] == before[k] && ranked@[l] == before[l]);
                        } else if k < at && l == at {
                            assert(ranked@[k] == before[k]);
                            assert(before[k].1 >= s);
                        } else if k < at {
                            assert(ranked@[k] == before[k] && ranked@[l] == before[l - 1]);
                        } else if k == at {
                            assert(ranked@[l] == before[l - 1]);
                            assert(!(before[at as int].1 >= s));
                            if l - 1 > at {
                                assert(ranks_before(
                                    sc,
                                    before[at as int].0 as int,
                                    before[l - 1].0 as int,
                                ));
                            }
                        } else {
                            assert(ranked@[k] == before[k - 1] && ranked@[l] == before[l - 1]);
                        }
                    }
                    assert forall|j: int|
                        0 <= j < i + 1 && matches(sc, j) implies exists|k: int|
                        0 <= k < ranked@.len() && #[trigger] ranked@[k].0 == j as usize by {
                        if j == i {
                            assert(ranked@[at as int].0 == j as usize);
                        } else {
                            let k = choose|k: int| 0 <= k < before.len() && #[trigger] before[k].0 == j as usize;
                            if k < at {
                                assert(ranked@[k] == before[k]);
                            } else {
                                assert(ranked@[k + 1] == before[k]);
                            }
                        }
                    }
                    assert forall|k: int| 0 <= k < ranked@.len() implies #[trigger] ranked@[k].0 < i + 1
                        && sc[ranked@[k].0 as int] == Some(ranked@[k].1) by {
                        if k < at {
                            assert(ranked@[k] == before[k]);
                        } else if k > at {
                            assert(ranked@[k] == before[k - 1]);
                        }
                    }
                }
            },
            None => {},
        }
    }
    let mut r: Vec<usize> = Vec::new();
    let m = ranked.len();
    for k in 0..m
        invariant
            m == ranked@.len(),
            r@.len() == k,
            forall|j: int| 0 <= j < k ==> #[trigger] r@[j] == ranked@[j].0,
    {
        r.push(ranked[k].0);
    }
    proof {
        assert forall|j: int| matches(sc, j) implies #[trigger] r@.contains(j as usize) by {
            let k = choose|k: int| 0 <= k < ranked@.len() && #[trigger] ranked@[k].0 == j as usize;
            assert(r@[k] == j as usize);
        }
        assert forall|k: int, l: int|
            0 <= k < l < r@.len() implies ranks_before(sc, #[trigger] r@[k] as int, #[trigger] r@[l] as int) by {
            assert(r@[k] == ranked@[k].0 && r@[l] == ranked@[l].0);
        }
        assert forall|k: int| 0 <= k < r@.len() implies matches(sc, #[trigger] r@[k] as int) by {
            assert(r@[k] == ranked@[k].0);
        }
    }
    r
}

pub open spec fn artist_names(artists: Seq<ArtistRef>) -> Seq<char>
    decreases artists.len(),
{
    if artists.len() == 0 {
        seq![]
    } else {
        artist_names(artists.drop_last()) + seq![' '] + artists.last().name@
    }
}

fn push_artist_names(document: &mut String, artists: &Vec<ArtistRef>)
    ensures
        final(document)@ == old(document)@ + artist_names(artists@),
{
    let ghost start = document@;
    let n = artists.len();
    for i in 0..n
        invariant
            n == artists@.len(),
            document@ == start + artist_names(artists@.take(i as int)),
    {
        proof {
            assert(artists@.take(i + 1).drop_last() =~= artists@.take(i as int));
        }
        document.append(" ");
        document.append(artists[i].name.as_str());
        proof {
            reveal_strlit(" ");
            assert(document@ =~= start + artist_names(artists@.take(i + 1)));
        }
    }
    assert(artists@.take(n as int) =~= artists@);
}

/// A track's document: its name and its artists' names, separated by spaces.
pub open spec fn track_document(t: TrackInfo) -> Seq<char> {
    t.name@ + artist_names(t.artists@)
}

/// An album's document: its name, its artists' names and its year, separated by
/// spaces.
pub open spec fn album_document(a: AlbumRef) -> Seq<char> {
    a.name@ + artist_names(a.artists@) + seq![' '] + spec_signed_digits(a.year as int)
}

impl<'a> SearchDocument for &'a str {
    open spec fn document(&self) -> Seq<char> {
        (*self)@
    }

    fn search_document(&self) -> (r: String)
        ensures
            r@ == (*self)@,
    {
        String::from_str(*self)
    }
}

impl SearchDocument for TrackInfo {
    open spec fn document(&self) -> Seq<char> {
        track_document(*self)
    }

    fn search_document(&self) -> (r: String)
        ensures
            r@ == track_document(*self),
    {
        let mut document = self.name.clone();
        push_artist_names(&mut document, &self.artists);
        document
    }
}

impl SearchDocument for AlbumRef {
    open spec fn document(&self) -> Seq<char> {
        album_document(*self)
    }

    fn search_document(&self) -> (r: String)
        ensures
            r@ == album_document(*self),
    {
        let mut document = self.name.clone();
        push_artist_names(&mut document, &self.artists);
        let year = signed_chars(self.year as i64);
        let mut tail: Vec<char> = Vec::new();
        tail.push(' ');
        let mut k: usize = 0;
        while k < year.len()
            invariant
                k <= year@.len(),
                tail@ == seq![' '] + year@.take(k as int),
            decreases year@.len() - k,
        {
            tail.push(year[k]);
            k += 1;
            assert(tail@ =~= seq![' '] + year@.take(k as int));
        }
        assert(year@.take(year@.len() as int) =~= year@);
        let tail = string_from_chars(tail.as_slice());
        document.append(tail.as_str());
        assert(document@ =~= album_document(*self));
        document
    }
}

} // verus!
