use crate::lyrics::{
    LineView, Line, Lyrics, LyricsView, Provider, Request, Word, WordView, classify, finish_timings,
    finished_lines, lines_view, make_lyrics, nonempty, spec_classify,
    spec_romanization_available, words_view,
};
use crate::numbers::{decimal_chars, spec_decimal_digits, spec_parse_u32};
use crate::text::{chars_of, spec_lines, string_from_chars, trim, trim_chars};
use crate::timing::{
    parse_lrc, parse_ms, plain_line, plain_lines, spec_parse_lrc,
};
use crate::search::pairs_view;
use crate::urls::{url_with_query_of, with_query, InvalidUrl};
use vstd::prelude::*;

verus! {

/// A syllable of Spotify's lyrics, as the response gives it.
#[derive(Debug, Clone)]
pub struct SpotifyWord {
    pub start_time_ms: String,
    pub end_time_ms: String,
    pub text: Option<String>,
    pub words: Option<String>,
}

/// A line of Spotify's lyrics, as the response gives it.
#[derive(Debug, Clone)]
pub struct SpotifyLine {
    pub start_time_ms: String,
    pub end_time_ms: String,
    pub words: String,
    pub syllables: Vec<SpotifyWord>,
}

/// Spotify's lyrics response.
#[derive(Debug, Clone)]
pub struct SpotifyLyrics {
    pub language: String,
    pub provider_display_name: String,
    pub lines: Vec<SpotifyLine>,
}

/// A syllable becomes a word when it has text and a readable start; an unreadable
/// end counts as 0.
pub open spec fn spotify_word(w: SpotifyWord) -> Option<WordView> {
    let text = match w.text {
        Some(t) => Some(t@),
        None => match w.words {
            Some(t) => Some(t@),
            None => None,
        },
    };
    match (text, spec_parse_u32(w.start_time_ms@)) {
        (Some(text), Some(start)) => Some(
            WordView {
                text,
                start_ms: start,
                end_ms: spec_parse_u32(w.end_time_ms@).unwrap_or(0),
            },
        ),
        _ => None,
    }
}

pub open spec fn spotify_words(ws: Seq<SpotifyWord>) -> Seq<WordView>
    decreases ws.len(),
{
    if ws.len() == 0 {
        seq![]
    } else {
        let before = spotify_words(ws.drop_last());
        match spotify_word(ws.last()) {
            Some(w) => before.push(w),
            None => before,
        }
    }
}

pub open spec fn spotify_line(l: SpotifyLine) -> LineView {
    LineView {
        text: l.words@,
        start_ms: spec_parse_u32(l.start_time_ms@),
        end_ms: spec_parse_u32(l.end_time_ms@),
        words: spotify_words(l.syllables@),
    }
}

pub open spec fn spotify_lines(ls: Seq<SpotifyLine>) -> Seq<LineView> {
    ls.map_values(|l: SpotifyLine| spotify_line(l))
}

/// The lyrics that a set of lines makes, with their timings finished.
pub open spec fn lyrics_of(
    source: Provider,
    attribution: Seq<char>,
    language: Option<Seq<char>>,
    lines: Seq<LineView>,
    duration_ms: u32,
) -> LyricsView {
    let finished = finished_lines(lines, duration_ms);
    LyricsView {
        source,
        attribution,
        language,
        sync: spec_classify(lines),
        romanization_available: spec_romanization_available(finished),
        lines: finished,
    }
}

pub open spec fn nonempty_view(s: Seq<char>) -> Option<Seq<char>> {
    if s.len() == 0 {
        None
    } else {
        Some(s)
    }
}

fn copy_opt(s: &Option<String>) -> (r: Option<String>)
    ensures
        r == *s,
{
    match s {
        Some(t) => Some(t.clone()),
        None => None,
    }
}

fn spotify_word_of(w: &SpotifyWord) -> (r: Option<Word>)
    ensures
        match spotify_word(*w) {
            Some(v) => r is Some && r->0@ == v,
            None => r is None,
        },
{
    let text = match &w.text {
        Some(t) => t.clone(),
        None => match &w.words {
            Some(t) => t.clone(),
            None => return None,
        },
    };
    let start = match parse_ms(w.start_time_ms.as_str()) {
        Some(s) => s,
        None => return None,
    };
    let end = match parse_ms(w.end_time_ms.as_str()) {
        Some(e) => e,
        None => 0,
    };
    Some(Word { text, start_ms: start, end_ms: end })
}

fn spotify_line_of(l: &SpotifyLine) -> (r: Line)
    ensures
        r@ == spotify_line(*l),
{
    let mut words: Vec<Word> = Vec::new();
    let n = l.syllables.len();
    for j in 0..n
        invariant
            n == l.syllables@.len(),
            words_view(words@) == spotify_words(l.syllables@.take(j as int)),
    {
        proof {
            assert(l.syllables@.take(j + 1).drop_last() =~= l.syllables@.take(j as int));
            assert(l.syllables@.take(j + 1).last() == l.syllables@[j as int]);
        }
        match spotify_word_of(&l.syllables[j]) {
            Some(w) => {
                words.push(w);
                assert(words_view(words@) =~= spotify_words(l.syllables@.take(j + 1)));
            },
            None => {},
        }
    }
    assert(l.syllables@.take(n as int) =~= l.syllables@);
    Line {
        text: l.words.clone(),
        start_ms: parse_ms(l.start_time_ms.as_str()),
        end_ms: parse_ms(l.end_time_ms.as_str()),
        words,
    }
}

/// Lyrics from Spotify's response: each line with its syllables as words (a
/// syllable without text or a readable start is left out), timings finished
/// against `duration_ms`; `None` when there are no lines.
pub fn spotify_lyrics(response: SpotifyLyrics, duration_ms: u32) -> (r: Option<Lyrics>)
    ensures
        response.lines@.len() == 0 <==> r is None,
        r is Some ==> r->0@ == lyrics_of(
            Provider::Spotify,
            response.provider_display_name@,
            nonempty_view(response.language@),
            spotify_lines(response.lines@),
            duration_ms,
        ),
{
    let mut lines: Vec<Line> = Vec::new();
    let n = response.lines.len();
    for i in 0..n
        invariant
            n == response.lines@.len(),
            lines@.len() == i,
            forall|k: int|
                0 <= k < i ==> #[trigger] lines@[k]@ == spotify_line(response.lines@[k]),
    {
        lines.push(spotify_line_of(&response.lines[i]));
    }
    assert(lines_view(lines@) =~= spotify_lines(response.lines@));
    let sync = classify(&lines);
    finish_timings(&mut lines, duration_ms);
    assert(lines_view(lines@).len() == lines@.len());
    if lines.len() == 0 {
        return None;
    }
    let language = nonempty(response.language);
    Some(make_lyrics(Provider::Spotify, response.provider_display_name, language, sync, lines))
}

/// LRCLIB's record of a track.
#[derive(Debug, Clone)]
pub struct LrclibRecord {
    pub plain_lyrics: Option<String>,
    pub synced_lyrics: Option<String>,
    pub lyricsfile: Option<String>,
}

#[derive(Debug, Clone)]
pub struct LyricsFileWord {
    pub text: String,
    pub start_ms: Option<u32>,
    pub end_ms: Option<u32>,
}

#[derive(Debug, Clone)]
pub struct LyricsFileLine {
    pub text: String,
    pub start_ms: Option<u32>,
    pub end_ms: Option<u32>,
    pub words: Vec<LyricsFileWord>,
}

/// A lyricsfile document that LRCLIB attaches to a record.
#[derive(Debug, Clone)]
pub struct LyricsFile {
    pub language: Option<String>,
    pub lines: Vec<LyricsFileLine>,
    pub plain: Option<String>,
}

/// The record's lyricsfile, when it has one that is not blank.
pub fn lyricsfile_text(record: &LrclibRecord) -> (r: Option<&String>)
    ensures
        match record.lyricsfile {
            Some(f) => if trim(f@).len() > 0 {
                r == Some(&f)
            } else {
                r is None
            },
            None => r is None,
        },
{
    match &record.lyricsfile {
        Some(f) => {
            let chars = chars_of(f.as_str());
            let trimmed = trim_chars(chars.as_slice());
            if trimmed.len() > 0 {
                Some(f)
            } else {
                None
            }
        },
        None => None,
    }
}

pub open spec fn file_words(ws: Seq<LyricsFileWord>) -> Seq<WordView>
    decreases ws.len(),
{
    if ws.len() == 0 {
        seq![]
    } else {
        let before = file_words(ws.drop_last());
        let w = ws.last();
        match w.start_ms {
            Some(start) => before.push(
                WordView { text: w.text@, start_ms: start, end_ms: w.end_ms.unwrap_or(0) },
            ),
            None => before,
        }
    }
}

pub open spec fn file_line(l: LyricsFileLine) -> LineView {
    LineView { text: l.text@, start_ms: l.start_ms, end_ms: l.end_ms, words: file_words(l.words@) }
}

pub open spec fn opt_text(s: Option<String>) -> Seq<char> {
    match s {
        Some(t) => t@,
        None => seq![],
    }
}

/// The lines of a lyricsfile: its own lines, or its plain text when it has none.
pub open spec fn file_lines(f: LyricsFile) -> Seq<LineView> {
    if f.lines@.len() == 0 {
        spec_lines(opt_text(f.plain)).map_values(|t: Seq<char>| plain_line(t))
    } else {
        f.lines@.map_values(|l: LyricsFileLine| file_line(l))
    }
}

/// The lines of the record itself: its synced LRC text, else its plain text.
pub open spec fn record_lines(record: LrclibRecord) -> Seq<LineView> {
    match record.synced_lyrics {
        Some(s) => spec_parse_lrc(s@),
        None => spec_lines(opt_text(record.plain_lyrics)).map_values(|t: Seq<char>| plain_line(t)),
    }
}

pub open spec fn spec_lrclib(record: LrclibRecord, file: Option<LyricsFile>, duration_ms: u32) -> Option<
    LyricsView,
> {
    if file is Some && file_lines(file->0).len() > 0 {
        let f = file->0;
        Some(
            lyrics_of(
                Provider::Lrclib,
                "LRCLIB"@,
                match f.language {
                    Some(l) => Some(l@),
                    None => None,
                },
                file_lines(f),
                duration_ms,
            ),
        )
    } else if record_lines(record).len() > 0 {
        Some(lyrics_of(Provider::Lrclib, "LRCLIB"@, None, record_lines(record), duration_ms))
    } else {
        None
    }
}

fn file_line_of(l: &LyricsFileLine) -> (r: Line)
    ensures
        r@ == file_line(*l),
{
    let mut words: Vec<Word> = Vec::new();
    let n = l.words.len();
    for j in 0..n
        invariant
            n == l.words@.len(),
            words_view(words@) == file_words(l.words@.take(j as int)),
    {
        proof {
            assert(l.words@.take(j + 1).drop_last() =~= l.words@.take(j as int));
            assert(l.words@.take(j + 1).last() == l.words@[j as int]);
        }
        let w = &l.words[j];
        match w.start_ms {
            Some(start) => {
                let end = match w.end_ms {
                    Some(e) => e,
                    None => 0,
                };
                words.push(Word { text: w.text.clone(), start_ms: start, end_ms: end });
                assert(words_view(words@) =~= file_words(l.words@.take(j + 1)));
            },
            None => {},
        }
    }
    assert(l.words@.take(n as int) =~= l.words@);
    Line { text: l.text.clone(), start_ms: l.start_ms, end_ms: l.end_ms, words }
}

fn lines_of_file(f: &LyricsFile) -> (r: Vec<Line>)
    ensures
        lines_view(r@) == file_lines(*f),
{
    if f.lines.len() == 0 {
        return match &f.plain {
            Some(p) => plain_lines(p.as_str()),
            None => {
                proof {
                    reveal_strlit("");
                }
                plain_lines("")
            },
        };
    }
    let mut lines: Vec<Line> = Vec::new();
    let n = f.lines.len();
    for i in 0..n
        invariant
            n == f.lines@.len(),
            lines@.len() == i,
            forall|k: int| 0 <= k < i ==> #[trigger] lines@[k]@ == file_line(f.lines@[k]),
    {
        lines.push(file_line_of(&f.lines[i]));
    }
    assert(lines_view(lines@) =~= file_lines(*f));
    lines
}

/// Lyrics from LRCLIB: those of the record's lyricsfile (`file`, its parse, when it
/// has one that parses) when it holds any line, else the record's synced LRC text,
/// else its plain text; timings finished against `duration_ms`; `None` when no
/// line is found.
pub fn lrclib_lyrics(record: &LrclibRecord, file: Option<LyricsFile>, duration_ms: u32) -> (r:
    Option<Lyrics>)
    ensures
        match spec_lrclib(*record, file, duration_ms) {
            Some(v) => r is Some && r->0@ == v,
            None => r is None,
        },
{
    if let Some(f) = file {
        let mut lines = lines_of_file(&f);
        let sync = classify(&lines);
        finish_timings(&mut lines, duration_ms);
        assert(lines_view(lines@).len() == lines@.len());
        if lines.len() > 0 {
            let attribution = String::from_str("LRCLIB");
            return Some(make_lyrics(Provider::Lrclib, attribution, f.language, sync, lines));
        }
    }
    let mut lines = match &record.synced_lyrics {
        Some(s) => parse_lrc(s.as_str()),
        None => match &record.plain_lyrics {
            Some(p) => plain_lines(p.as_str()),
            None => {
                proof {
                    reveal_strlit("");
                }
                plain_lines("")
            },
        },
    };
    let sync = classify(&lines);
    finish_timings(&mut lines, duration_ms);
    assert(lines_view(lines@).len() == lines@.len());
    if lines.len() == 0 {
        return None;
    }
    let attribution = String::from_str("LRCLIB");
    Some(make_lyrics(Provider::Lrclib, attribution, None, sync, lines))
}

/// The query LRCLIB is asked with: the title, the first artist and, when known,
/// the duration in whole seconds; `None` when the title or the artists are missing.
pub open spec fn spec_lrclib_query(request: Request) -> Option<Seq<(Seq<char>, Seq<char>)>> {
    if request.title@.len() == 0 || request.artists@.len() == 0 {
        None
    } else {
        let base = seq![("track_name"@, request.title@), ("artist_name"@, request.artists@[0]@)];
        Some(
            if request.duration_ms > 0 {
                base.push(("duration"@, spec_decimal_digits((request.duration_ms / 1000) as nat)))
            } else {
                base
            },
        )
    }
}

/// The query LRCLIB is asked with.
pub fn lrclib_query(request: &Request) -> (r: Option<Vec<(String, String)>>)
    ensures
        match spec_lrclib_query(*request) {
            Some(q) => r is Some && pairs_view(r->0@) == q,
            None => r is None,
        },
{
    if request.title.as_str().is_empty() || request.artists.len() == 0 {
        return None;
    }
    let mut query: Vec<(String, String)> = Vec::new();
    query.push((String::from_str("track_name"), request.title.clone()));
    query.push((String::from_str("artist_name"), request.artists[0].clone()));
    if request.duration_ms > 0 {
        let seconds = decimal_chars((request.duration_ms / 1000) as u64);
        query.push((String::from_str("duration"), string_from_chars(seconds.as_slice())));
    }
    assert(pairs_view(query@) =~= spec_lrclib_query(*request)->0);
    Some(query)
}

/// LRCLIB's endpoint for one record.
pub const LRCLIB_ENDPOINT: &'static str = "https://lrclib.net/api/get";

/// The URL LRCLIB is asked with (see `lrclib_query`); none when the title or the
/// artists are missing.
pub fn lrclib_url(request: &Request) -> (r: Result<Option<String>, InvalidUrl>)
    ensures
        match spec_lrclib_query(*request) {
            None => r == Ok::<Option<String>, InvalidUrl>(None),
            Some(q) => match url_with_query_of(LRCLIB_ENDPOINT@, q) {
                Some(u) => r is Ok && r->Ok_0 is Some && r->Ok_0->0@ == u,
                None => r is Err,
            },
        },
{
    match lrclib_query(request) {
        None => Ok(None),
        Some(pairs) => match with_query(LRCLIB_ENDPOINT, &pairs) {
            Ok(u) => Ok(Some(u)),
            Err(e) => Err(e),
        },
    }
}

} // verus!
