use crate::batches::views;
use crate::model::{AlbumRef, ArtistRef, TrackInfo};
use crate::numbers::{
    all_digits, decimal_chars, digit_char, digit_value, digits_value, lemma_decimal_digits,
    spec_decimal_digits,
};
use crate::text::{
    chars_of, find_from, lemma_first_from, occurs_at, occurs_here, slice_chars, string_from_chars,
};
use crate::timing::{index_of, index_of_char, law_time_forms, spec_parse_time};
use vstd::multiset::Multiset;
use vstd::prelude::*;

verus! {

broadcast use vstd::seq_lib::group_to_multiset_ensures;

/// A duration as minutes and two-digit seconds, `m:ss`.
pub open spec fn spec_clock(ms: u32) -> Seq<char> {
    let seconds = ms / 1000;
    let s = seconds % 60;
    spec_decimal_digits((seconds / 60) as nat) + seq![':', digit_char((s / 10) as nat), digit_char((s % 10) as nat)]
}

/// A duration in milliseconds as `m:ss`.
pub fn clock(ms: u32) -> (r: String)
    ensures
        r@ == spec_clock(ms),
{
    let seconds = ms / 1000;
    let s = seconds % 60;
    let mut out = decimal_chars((seconds / 60) as u64);
    out.push(':');
    let tens = crate::numbers::char_from_digit(s / 10);
    let ones = crate::numbers::char_from_digit(s % 10);
    out.push(tens);
    out.push(ones);
    string_from_chars(out.as_slice())
}

/// The heading of the tracks that follow in the queue: from where they come, where
/// that is known.
pub open spec fn spec_next_from(source: Seq<char>) -> Seq<char> {
    if source.len() == 0 {
        "Next up"@
    } else {
        "Next from "@ + source
    }
}

pub fn next_from(source: &str) -> (r: String)
    ensures
        r@ == spec_next_from(source@),
{
    let chars = chars_of(source);
    if chars.len() == 0 {
        return String::from_str("Next up");
    }
    let mut out = chars_of("Next from ");
    let ghost head = out@;
    let mut rest = chars;
    out.append(&mut rest);
    assert(out@ =~= head + source@);
    string_from_chars(out.as_slice())
}

fn count_of(v: &Vec<String>, x: &String) -> (r: usize)
    ensures
        r == views(v@).to_multiset().count(x@),
{
    let mut count: usize = 0;
    let n = v.len();
    assert(views(v@).take(0).to_multiset() =~= Multiset::<Seq<char>>::empty());
    for i in 0..n
        invariant
            n == v@.len(),
            count <= i,
            count == views(v@).take(i as int).to_multiset().count(x@),
    {
        assert(views(v@).take(i + 1) =~= views(v@).take(i as int).push(v@[i as int]@));
        if v[i] == *x {
            count += 1;
        }
    }
    assert(views(v@).take(n as int) =~= views(v@));
    count
}

/// Whether two queues hold the same tracks, in any order, each as often.
pub fn same_queue(left: &Vec<String>, right: &Vec<String>) -> (r: bool)
    ensures
        r == (views(left@).to_multiset() == views(right@).to_multiset()),
{
    if left.len() != right.len() {
        proof {
            if views(left@).to_multiset() == views(right@).to_multiset() {
                assert(views(left@).to_multiset().len() == views(right@).to_multiset().len());
            }
        }
        return false;
    }
    let ghost ml = views(left@).to_multiset();
    let ghost mr = views(right@).to_multiset();
    let n = left.len();
    for i in 0..n
        invariant
            n == left@.len(),
            ml == views(left@).to_multiset(),
            mr == views(right@).to_multiset(),
            forall|j: int| 0 <= j < i ==> ml.count(#[trigger] left@[j]@) == mr.count(left@[j]@),
    {
        if count_of(left, &left[i]) != count_of(right, &left[i]) {
            return false;
        }
    }
    let m = right.len();
    for i in 0..m
        invariant
            m == right@.len(),
            ml == views(left@).to_multiset(),
            mr == views(right@).to_multiset(),
            forall|j: int| 0 <= j < n ==> ml.count(#[trigger] left@[j]@) == mr.count(left@[j]@),
            forall|j: int| 0 <= j < i ==> ml.count(#[trigger] right@[j]@) == mr.count(right@[j]@),
            n == left@.len(),
    {
        if count_of(left, &right[i]) != count_of(right, &right[i]) {
            return false;
        }
    }
    proof {
        assert forall|x: Seq<char>| ml.count(x) == mr.count(x) by {
            if views(left@).contains(x) {
                let j = choose|j: int| 0 <= j < views(left@).len() && views(left@)[j] == x;
                assert(left@[j]@ == x);
            } else if views(right@).contains(x) {
                let j = choose|j: int| 0 <= j < views(right@).len() && views(right@)[j] == x;
                assert(right@[j]@ == x);
            } else {
                assert(ml.count(x) == 0);
                assert(mr.count(x) == 0);
            }
        }
        assert(ml =~= mr);
    }
    true
}

/// Names joined by `", "`.
pub open spec fn joined_names(artists: Seq<ArtistRef>) -> Seq<char>
    decreases artists.len(),
{
    if artists.len() == 0 {
        Seq::empty()
    } else if artists.len() == 1 {
        artists[0].name@
    } else {
        joined_names(artists.drop_last()) + ", "@ + artists.last().name@
    }
}

/// The artists' names, separated by commas.
pub fn names(artists: &Vec<ArtistRef>) -> (r: String)
    ensures
        r@ == joined_names(artists@),
{
    let mut out: Vec<char> = Vec::new();
    let sep = chars_of(", ");
    let n = artists.len();
    for i in 0..n
        invariant
            n == artists@.len(),
            sep@ == ", "@,
            out@ == joined_names(artists@.take(i as int)),
    {
        assert(artists@.take(i + 1).drop_last() =~= artists@.take(i as int));
        if i > 0 {
            let mut s = sep.clone();
            out.append(&mut s);
        }
        let mut name = chars_of(artists[i].name.as_str());
        out.append(&mut name);
        proof {
            if i == 0 {
                assert(out@ =~= artists@[0].name@);
            }
        }
    }
    assert(artists@.take(n as int) =~= artists@);
    string_from_chars(out.as_slice())
}

/// Text with everything between `<` and `>` left out, the brackets too.
pub open spec fn strip_state(s: Seq<char>) -> (Seq<char>, bool)
    decreases s.len(),
{
    if s.len() == 0 {
        (Seq::empty(), false)
    } else {
        let (out, inside) = strip_state(s.drop_last());
        let c = s.last();
        if c == '<' {
            (out, true)
        } else if c == '>' {
            (out, false)
        } else if !inside {
            (out.push(c), inside)
        } else {
            (out, inside)
        }
    }
}

pub open spec fn spec_strip_tags(s: Seq<char>) -> Seq<char> {
    strip_state(s).0
}

fn stripped(text: &str) -> (r: Vec<char>)
    ensures
        r@ == spec_strip_tags(text@),
{
    let s = chars_of(text);
    let mut out: Vec<char> = Vec::new();
    let mut inside = false;
    let n = s.len();
    for i in 0..n
        invariant
            n == s@.len(),
            s@ == text@,
            (out@, inside) == strip_state(s@.take(i as int)),
    {
        assert(s@.take(i + 1).drop_last() =~= s@.take(i as int));
        let c = s[i];
        assert(c == s@.take(i + 1).last());
        if c == '<' {
            inside = true;
        } else if c == '>' {
            inside = false;
        } else if !inside {
            out.push(c);
        }
    }
    assert(s@.take(n as int) =~= s@);
    out
}

/// Text with its tags left out.
pub fn strip_tags(text: &str) -> (r: String)
    ensures
        r@ == spec_strip_tags(text@),
{
    let out = stripped(text);
    string_from_chars(out.as_slice())
}

/// The last position at or before `j` where `needle` stands in `s`.
pub open spec fn last_until(s: Seq<char>, needle: Seq<char>, j: int) -> Option<int>
    decreases j + 1,
{
    if j < 0 {
        None
    } else if occurs_at(s, needle, j) {
        Some(j)
    } else {
        last_until(s, needle, j - 1)
    }
}

/// A biography as the artist page shows it: tags removed, then split at its last
/// `" ~ "` into the text and its credit; the blurb is the text's first line, and
/// the credit reads `Notes by ...` (nothing where there is no credit).
pub open spec fn spec_biography(bio: Seq<char>) -> (Seq<char>, Seq<char>) {
    let plain = spec_strip_tags(bio);
    let (body, credit) = match last_until(plain, " ~ "@, plain.len() as int) {
        Some(p) => (plain.take(p), plain.skip(p + 3)),
        None => (plain, Seq::empty()),
    };
    let first = match index_of(body, '\n') {
        Some(e) => body.take(e as int),
        None => body,
    };
    (first, if credit.len() == 0 {
        Seq::empty()
    } else {
        "Notes by "@ + credit
    })
}

proof fn lemma_last_until_skip(s: Seq<char>, needle: Seq<char>, j: int, k: int)
    requires
        k <= j,
        forall|q: int| k < q <= j ==> !occurs_at(s, needle, q),
    ensures
        last_until(s, needle, j) == last_until(s, needle, k),
    decreases j - k,
{
    if k < j {
        lemma_last_until_skip(s, needle, j - 1, k);
    }
}

fn last_occurrence(s: &[char], needle: &[char]) -> (r: Option<usize>)
    requires
        needle@.len() > 0,
    ensures
        match r {
            Some(p) => last_until(s@, needle@, s@.len() as int) == Some(p as int),
            None => last_until(s@, needle@, s@.len() as int) is None,
        },
{
    let n = s.len();
    let m = needle.len();
    if m > n {
        proof {
            lemma_last_until_skip(s@, needle@, n as int, -1);
        }
        return None;
    }
    let mut p = n - m;
    proof {
        lemma_last_until_skip(s@, needle@, n as int, p as int);
    }
    loop
        invariant
            p + m <= n,
            n == s@.len(),
            m == needle@.len(),
            m > 0,
            last_until(s@, needle@, n as int) == last_until(s@, needle@, p as int),
        decreases p,
    {
        if crate::text::occurs_here(s, needle, p) {
            return Some(p);
        }
        if p == 0 {
            assert(last_until(s@, needle@, -1) is None);
            return None;
        }
        p -= 1;
    }
}

/// The blurb and the credit line of an artist's biography.
pub fn biography(bio: &str) -> (r: (String, String))
    ensures
        (r.0@, r.1@) == spec_biography(bio@),
{
    let plain = stripped(bio);
    let sep = chars_of(" ~ ");
    proof {
        reveal_strlit(" ~ ");
    }
    let total = plain.len();
    let (body, credit) = match last_occurrence(plain.as_slice(), sep.as_slice()) {
        Some(p) => {
            proof {
                lemma_last_until(plain@, " ~ "@, plain@.len() as int);
            }
            assert(p + 3 <= plain@.len());
            (slice_chars(plain.as_slice(), 0, p), slice_chars(plain.as_slice(), p + 3, total))
        },
        None => (plain.clone(), Vec::new()),
    };
    let first = match index_of_char(body.as_slice(), '\n') {
        Some(e) => slice_chars(body.as_slice(), 0, e),
        None => body,
    };
    let credit_line = if credit.len() == 0 {
        Vec::new()
    } else {
        let mut line = chars_of("Notes by ");
        let ghost head = line@;
        let mut c = credit;
        line.append(&mut c);
        line
    };
    proof {
        let plain_s = spec_strip_tags(bio@);
        assert(plain@ == plain_s);
        match last_until(plain_s, " ~ "@, plain_s.len() as int) {
            Some(p) => {
                assert(body@ =~= plain_s.take(p));
            },
            None => {
                assert(body@ =~= plain_s);
            },
        }
    }
    (string_from_chars(first.as_slice()), string_from_chars(credit_line.as_slice()))
}

proof fn lemma_last_until(s: Seq<char>, needle: Seq<char>, j: int)
    ensures
        last_until(s, needle, j) matches Some(p) ==> 0 <= p <= j && occurs_at(s, needle, p),
    decreases j + 1,
{
    if j >= 0 && !occurs_at(s, needle, j) {
        lemma_last_until(s, needle, j - 1);
    }
}

/// The position of the newest release among albums and then singles: the latest
/// year, the last of equal ones.
pub open spec fn latest_at(releases: Seq<AlbumRef>, k: int) -> bool {
    &&& 0 <= k < releases.len()
    &&& forall|j: int| 0 <= j < releases.len() ==> (#[trigger] releases[j]).year <= releases[k].year
    &&& forall|j: int| k < j < releases.len() ==> (#[trigger] releases[j]).year < releases[k].year
}

/// Where the latest release stands among the artist's albums followed by its
/// singles; none where there are none.
pub fn latest_release(albums: &Vec<AlbumRef>, singles: &Vec<AlbumRef>) -> (r: Option<usize>)
    requires
        albums@.len() + singles@.len() <= usize::MAX,
    ensures
        match r {
            Some(k) => latest_at(albums@ + singles@, k as int),
            None => albums@.len() + singles@.len() == 0,
        },
{
    let ghost all = albums@ + singles@;
    let na = albums.len();
    let ns = singles.len();
    if na + ns == 0 {
        return None;
    }
    let mut best: usize = 0;
    let mut best_year: i32 = if na > 0 {
        albums[0].year
    } else {
        singles[0].year
    };
    let total = na + ns;
    for i in 1..total
        invariant
            total == all.len(),
            na == albums@.len(),
            all == albums@ + singles@,
            best < i,
            best_year == all[best as int].year,
            forall|j: int| 0 <= j < i ==> (#[trigger] all[j]).year <= best_year,
            forall|j: int| best < j < i ==> (#[trigger] all[j]).year < best_year,
    {
        let y = if i < na {
            albums[i].year
        } else {
            singles[i - na].year
        };
        assert(y == all[i as int].year);
        if y >= best_year {
            best = i;
            best_year = y;
        }
    }
    Some(best)
}

/// Whether a release is among the albums (by uri), which makes it an album rather
/// than a single.
pub fn is_album(albums: &Vec<AlbumRef>, uri: &String) -> (r: bool)
    ensures
        r == exists|k: int| 0 <= k < albums@.len() && (#[trigger] albums@[k]).uri@ == uri@,
{
    let n = albums.len();
    for i in 0..n
        invariant
            n == albums@.len(),
            forall|k: int| 0 <= k < i ==> (#[trigger] albums@[k]).uri@ != uri@,
    {
        if albums[i].uri == *uri {
            return true;
        }
    }
    false
}

/// The position of the first release with a cover that is the track's cover.
pub open spec fn first_cover_match(releases: Seq<AlbumRef>, cover: Option<String>, k: int) -> bool {
    &&& 0 <= k < releases.len()
    &&& releases[k].cover_id is Some && opt_chars(releases[k].cover_id) == opt_chars(cover)
    &&& forall|j: int|
        0 <= j < k ==> !((#[trigger] releases[j]).cover_id is Some && opt_chars(releases[j].cover_id)
            == opt_chars(cover))
}

pub open spec fn opt_chars(o: Option<String>) -> Option<Seq<char>> {
    match o {
        Some(s) => Some(s@),
        None => None,
    }
}

/// The release a top track is shown under: the first release (albums, then singles)
/// with the track's cover, unless that release bears the track's own name; else
/// `Single`.
pub open spec fn spec_release_label(releases: Seq<AlbumRef>, cover: Option<String>, name: Seq<char>) -> Seq<char> {
    if exists|k: int| first_cover_match(releases, cover, k) {
        let k = choose|k: int| first_cover_match(releases, cover, k);
        if releases[k].name@ != name {
            releases[k].name@
        } else {
            "Single"@
        }
    } else {
        "Single"@
    }
}

fn same_cover(a: &Option<String>, b: &Option<String>) -> (r: bool)
    ensures
        r == (a is Some && opt_chars(*a) == opt_chars(*b)),
{
    match (a, b) {
        (Some(x), Some(y)) => *x == *y,
        _ => false,
    }
}

/// The release a top track is shown under.
pub fn release_label(albums: &Vec<AlbumRef>, singles: &Vec<AlbumRef>, cover: &Option<String>, name: &str) -> (r: String)
    requires
        albums@.len() + singles@.len() <= usize::MAX,
    ensures
        r@ == spec_release_label(albums@ + singles@, *cover, name@),
{
    let ghost all = albums@ + singles@;
    let na = albums.len();
    let total = na + singles.len();
    for i in 0..total
        invariant
            total == all.len(),
            na == albums@.len(),
            all == albums@ + singles@,
            forall|j: int|
                0 <= j < i ==> !((#[trigger] all[j]).cover_id is Some && opt_chars(all[j].cover_id)
                    == opt_chars(*cover)),
    {
        let release = if i < na {
            &albums[i]
        } else {
            &singles[i - na]
        };
        assert(*release == all[i as int]);
        if same_cover(&release.cover_id, cover) {
            proof {
                assert(first_cover_match(all, *cover, i as int));
                let k = choose|k: int| first_cover_match(all, *cover, k);
                assert(k == i);
            }
            if !crate::text::same_text(release.name.as_str(), name) {
                return release.name.clone();
            }
            return String::from_str("Single");
        }
    }
    proof {
        assert(!exists|k: int| first_cover_match(all, *cover, k));
    }
    String::from_str("Single")
}

/// Where `index` falls among the spans (start inclusive, end exclusive): the first
/// span that holds it.
pub fn span_at(spans: &Vec<(usize, usize)>, index: usize) -> (r: Option<usize>)
    ensures
        match r {
            Some(k) => k < spans@.len() && spans@[k as int].0 <= index < spans@[k as int].1
                && forall|j: int|
                0 <= j < k ==> !((#[trigger] spans@[j]).0 <= index < spans@[j].1),
            None => forall|j: int| 0 <= j < spans@.len() ==> !((#[trigger] spans@[j]).0 <= index < spans@[j].1),
        },
{
    let n = spans.len();
    for i in 0..n
        invariant
            n == spans@.len(),
            forall|j: int| 0 <= j < i ==> !((#[trigger] spans@[j]).0 <= index < spans@[j].1),
    {
        let (start, end) = spans[i];
        if start <= index && index < end {
            return Some(i);
        }
    }
    None
}


/// What `str::to_lowercase` gives for a text: Unicode's lower case of each character
/// (with std's rule for a final sigma). Its tables take pages; the result depends on
/// the text alone.
pub uninterp spec fn lowercase_of(text: Seq<char>) -> Seq<char>;

/// `str::to_lowercase`.
#[verifier::external_body]
fn lowercase(text: &str) -> (r: String)
    ensures
        r@ == lowercase_of(text@),
{
    text.to_lowercase()
}

/// How well a name (already in lower case) answers a query: 60 for the whole name,
/// 40 for its start, 20 for any part of it, else 0.
pub open spec fn spec_score(lowered: Seq<char>, query: Seq<char>) -> u64 {
    if lowered == query {
        60
    } else if query.len() <= lowered.len() && lowered.take(query.len() as int) == query {
        40
    } else if exists|k: int| occurs_at(lowered, query, k) {
        20
    } else {
        0
    }
}

/// How well a name in lower case answers a query.
pub fn score_lowered(lowered: &str, query: &str) -> (r: u64)
    ensures
        r == spec_score(lowered@, query@),
{
    let n = chars_of(lowered);
    let q = chars_of(query);
    if crate::text::same_text(lowered, query) {
        return 60;
    }
    if q.len() <= n.len() {
        let head = slice_chars(n.as_slice(), 0, q.len());
        let head_text = string_from_chars(head.as_slice());
        assert(head@ =~= lowered@.take(query@.len() as int));
        if crate::text::same_text(head_text.as_str(), query) {
            return 40;
        }
    }
    proof {
        lemma_first_from(n@, q@, 0);
    }
    match find_from(n.as_slice(), q.as_slice(), 0) {
        Some(_) => 20,
        None => {
            proof {
                assert forall|k: int| !occurs_at(lowered@, query@, k) by {
                    if k < 0 {
                    }
                }
            }
            0
        },
    }
}

/// How well a result's name answers a query in lower case, the name compared in
/// lower case.
pub fn score(name: &str, query: &str) -> (r: u64)
    ensures
        r == spec_score(lowercase_of(name@), query@),
{
    let lowered = lowercase(name);
    score_lowered(lowered.as_str(), query)
}


/// The total length of some tracks, in milliseconds.
pub open spec fn total_ms(tracks: Seq<TrackInfo>) -> nat
    decreases tracks.len(),
{
    if tracks.len() == 0 {
        0
    } else {
        total_ms(tracks.drop_last()) + tracks.last().duration_ms as nat
    }
}

proof fn lemma_total_ms_bound(tracks: Seq<TrackInfo>)
    ensures
        total_ms(tracks) <= tracks.len() * 0xffff_ffff,
    decreases tracks.len(),
{
    if tracks.len() > 0 {
        lemma_total_ms_bound(tracks.drop_last());
    }
}

/// What a playlist's header says of its tracks: ` · <n> songs · <m> min`, the
/// minutes whole.
pub open spec fn spec_playlist_summary(tracks: Seq<TrackInfo>) -> Seq<char> {
    " · "@ + spec_decimal_digits(tracks.len()) + " songs · "@ + spec_decimal_digits(total_ms(tracks) / 60_000)
        + " min"@
}

/// The count and length of a playlist's tracks, as its header shows them.
pub fn playlist_summary(tracks: &Vec<TrackInfo>) -> (r: String)
    requires
        tracks@.len() <= u32::MAX,
    ensures
        r@ == spec_playlist_summary(tracks@),
{
    let mut total: u64 = 0;
    let n = tracks.len();
    for i in 0..n
        invariant
            n == tracks@.len(),
            n <= u32::MAX,
            total == total_ms(tracks@.take(i as int)),
    {
        assert(tracks@.take(i + 1).drop_last() =~= tracks@.take(i as int));
        proof {
            lemma_total_ms_bound(tracks@.take(i as int));
            assert(i * 0xffff_ffff <= 0xffff_ffff * 0xffff_ffff) by (nonlinear_arith)
                requires
                    i <= 0xffff_ffff,
            ;
        }
        total = total + tracks[i].duration_ms as u64;
    }
    assert(tracks@.take(n as int) =~= tracks@);
    let mut out = chars_of(" · ");
    let mut count = decimal_chars(n as u64);
    out.append(&mut count);
    let mut songs = chars_of(" songs · ");
    out.append(&mut songs);
    let mut minutes = decimal_chars(total / 60_000);
    out.append(&mut minutes);
    let mut min = chars_of(" min");
    out.append(&mut min);
    string_from_chars(out.as_slice())
}

pub open spec fn first_artist(track: TrackInfo) -> Option<Seq<char>> {
    if track.artists@.len() > 0 {
        Some(track.artists@[0].name@)
    } else {
        None
    }
}

/// Whether a playlist's tracks are by more than one first artist (the first artist
/// of every track compared with that of the first track), which makes its rows show
/// each track's cover.
pub open spec fn spec_mixed_artists(tracks: Seq<TrackInfo>) -> bool {
    let primary = if tracks.len() > 0 {
        first_artist(tracks[0])
    } else {
        None
    };
    exists|i: int| 0 <= i < tracks.len() && first_artist(#[trigger] tracks[i]) != primary
}

fn first_artist_of(track: &TrackInfo) -> (r: Option<&String>)
    ensures
        match r {
            Some(n) => first_artist(*track) == Some(n@),
            None => first_artist(*track) is None,
        },
{
    if track.artists.len() > 0 {
        Some(&track.artists[0].name)
    } else {
        None
    }
}

fn same_name(a: Option<&String>, b: Option<&String>) -> (r: bool)
    ensures
        r == (match (a, b) {
            (Some(x), Some(y)) => x@ == y@,
            (None, None) => true,
            _ => false,
        }),
{
    match (a, b) {
        (Some(x), Some(y)) => *x == *y,
        (None, None) => true,
        _ => false,
    }
}

/// Whether a playlist's tracks are by more than one first artist.
pub fn mixed_artists(tracks: &Vec<TrackInfo>) -> (r: bool)
    ensures
        r == spec_mixed_artists(tracks@),
{
    let n = tracks.len();
    if n == 0 {
        return false;
    }
    let primary = first_artist_of(&tracks[0]);
    for i in 0..n
        invariant
            n == tracks@.len(),
            n > 0,
            match primary {
                Some(p) => first_artist(tracks@[0]) == Some(p@),
                None => first_artist(tracks@[0]) is None,
            },
            forall|j: int| 0 <= j < i ==> first_artist(#[trigger] tracks@[j]) == first_artist(tracks@[0]),
    {
        if !same_name(first_artist_of(&tracks[i]), primary) {
            return true;
        }
    }
    false
}

/// `spotify:album:`
pub open spec fn album_prefix() -> Seq<char> {
    seq!['s', 'p', 'o', 't', 'i', 'f', 'y', ':', 'a', 'l', 'b', 'u', 'm', ':']
}

/// Whether a page's uri names an album (it starts `spotify:album:`) rather than a
/// playlist.
pub fn is_album_uri(uri: &str) -> (r: bool)
    ensures
        r == (uri@.len() >= album_prefix().len() && uri@.take(album_prefix().len() as int)
            == album_prefix()),
{
    let s = chars_of(uri);
    let prefix = ['s', 'p', 'o', 't', 'i', 'f', 'y', ':', 'a', 'l', 'b', 'u', 'm', ':'];
    assert(prefix@ =~= album_prefix());
    if s.len() < prefix.len() {
        return false;
    }
    let r = occurs_here(s.as_slice(), &prefix, 0);
    assert(s@.subrange(0, album_prefix().len() as int) =~= uri@.take(album_prefix().len() as int));
    r
}

/// What a playlist page says of where it comes from: `Album by <owner>` or
/// `Playlist by <owner>`, with `…` for an owner whose name is not known yet.
pub open spec fn spec_release_heading(album: bool, owner: Option<Seq<char>>) -> Seq<char> {
    (if album {
        "Album by "@
    } else {
        "Playlist by "@
    }) + match owner {
        Some(o) => o,
        None => seq!['\u{2026}'],
    }
}

/// The heading of a playlist or album page.
pub fn release_heading(album: bool, owner: Option<&str>) -> (r: String)
    ensures
        r@ == spec_release_heading(
            album,
            match owner {
                Some(o) => Some(o@),
                None => None,
            },
        ),
{
    let mut r = if album {
        String::from_str("Album by ")
    } else {
        String::from_str("Playlist by ")
    };
    match owner {
        Some(o) => r.append(o),
        None => {
            let ellipsis = ['\u{2026}'];
            let e = string_from_chars(&ellipsis);
            assert(ellipsis@ =~= seq!['\u{2026}']);
            r.append(e.as_str());
        },
    }
    r
}

/// How many placeholder rows a page shows while its tracks load: one per track,
/// at least one and at most twelve.
pub fn skeleton_rows(length: usize) -> (r: usize)
    ensures
        r == if length < 1 {
            1
        } else if length > 12 {
            12
        } else {
            length
        },
{
    if length < 1 {
        1
    } else if length > 12 {
        12
    } else {
        length
    }
}

/// The clock a duration is shown as reads back, as a time, to the duration's whole
/// seconds.
pub proof fn law_clock_reads_back(ms: u32)
    ensures
        spec_parse_time(spec_clock(ms)) == Some(((ms / 1000) * 1000) as u32),
{
    let seconds = ms / 1000;
    let s = seconds % 60;
    let m = (seconds / 60) as nat;
    let minutes = spec_decimal_digits(m);
    let digits = seq![digit_char((s / 10) as nat), digit_char((s % 10) as nat)];
    lemma_decimal_digits(m);
    assert(digit_value(digit_char((s / 10) as nat)) == s / 10);
    assert(digit_value(digit_char((s % 10) as nat)) == s % 10);
    assert(all_digits(digits));
    assert(digits.drop_last() =~= seq![digit_char((s / 10) as nat)]);
    assert(seq![digit_char((s / 10) as nat)].drop_last() =~= Seq::<char>::empty());
    let one = seq![digit_char((s / 10) as nat)];
    assert(digits_value(one) == digits_value(one.drop_last()) * 10 + digit_value(one.last()));
    assert(digits_value(one) == s / 10);
    assert(digits_value(digits) == digits_value(digits.drop_last()) * 10 + digit_value(digits.last()));
    assert(digits_value(digits) == s);
    assert(spec_clock(ms) =~= minutes + seq![':'] + digits);
    law_time_forms(minutes, digits);
    assert((m * 60 + s) * 1000 == seconds * 1000);
}

/// Stripping tags leaves no angle bracket behind, keeps a text without brackets as
/// it is, and changes nothing when done again.
pub proof fn law_strip_tags(s: Seq<char>)
    ensures
        forall|k: int|
            0 <= k < spec_strip_tags(s).len() ==> #[trigger] spec_strip_tags(s)[k] != '<'
                && spec_strip_tags(s)[k] != '>',
        (forall|k: int| 0 <= k < s.len() ==> #[trigger] s[k] != '<' && s[k] != '>')
            ==> spec_strip_tags(s) == s,
        spec_strip_tags(spec_strip_tags(s)) == spec_strip_tags(s),
    decreases s.len(),
{
    if s.len() > 0 {
        law_strip_tags(s.drop_last());
        let (out, inside) = strip_state(s.drop_last());
        let c = s.last();
        if forall|k: int| 0 <= k < s.len() ==> #[trigger] s[k] != '<' && s[k] != '>' {
            assert forall|k: int| 0 <= k < s.drop_last().len() implies #[trigger] s.drop_last()[k]
                != '<' && s.drop_last()[k] != '>' by {
                assert(s.drop_last()[k] == s[k]);
            }
            lemma_strip_plain(s.drop_last());
            assert(s.drop_last().push(c) =~= s);
        }
        lemma_strip_plain(spec_strip_tags(s));
    } else {
        assert(spec_strip_tags(s) =~= s);
    }
}

/// A text without brackets is read with no tag open and kept whole.
proof fn lemma_strip_plain(s: Seq<char>)
    requires
        forall|k: int| 0 <= k < s.len() ==> #[trigger] s[k] != '<' && s[k] != '>',
    ensures
        strip_state(s) == (s, false),
    decreases s.len(),
{
    if s.len() > 0 {
        assert forall|k: int| 0 <= k < s.drop_last().len() implies #[trigger] s.drop_last()[k]
            != '<' && s.drop_last()[k] != '>' by {
            assert(s.drop_last()[k] == s[k]);
        }
        lemma_strip_plain(s.drop_last());
        assert(s.drop_last().push(s.last()) =~= s);
        assert(s[s.len() - 1] == s.last());
    } else {
        assert(s =~= Seq::<char>::empty());
    }
}

} // verus!
