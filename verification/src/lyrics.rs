use vstd::prelude::*;
use crate::script::{char_script, deunicode_of, deunicode_text, kakasi_romaji, kakasi_romaji_of, script_of, ScriptClass};
use crate::text::chars_of;

verus! {

/// How precisely a set of lyrics is timed; the order is the order of quality.
#[derive(Debug, Clone, Copy, PartialEq, Eq, PartialOrd, Ord)]
pub enum Sync {
    Unsynced,
    Line,
    Word,
}

impl Sync {
    pub open spec fn spec_rank(self) -> nat {
        match self {
            Sync::Unsynced => 0,
            Sync::Line => 1,
            Sync::Word => 2,
        }
    }

    /// The position of this level in the quality order.
    pub fn rank(self) -> (r: u8)
        ensures
            r == self.spec_rank(),
    {
        match self {
            Sync::Unsynced => 0,
            Sync::Line => 1,
            Sync::Word => 2,
        }
    }
}

#[derive(Debug, Clone, PartialEq, Eq)]
pub struct Word {
    pub text: String,
    pub start_ms: u32,
    pub end_ms: u32,
}

pub struct WordView {
    pub text: Seq<char>,
    pub start_ms: u32,
    pub end_ms: u32,
}

impl View for Word {
    type V = WordView;

    open spec fn view(&self) -> WordView {
        WordView { text: self.text@, start_ms: self.start_ms, end_ms: self.end_ms }
    }
}

#[derive(Debug, Clone, PartialEq, Eq)]
pub struct Line {
    pub text: String,
    pub start_ms: Option<u32>,
    pub end_ms: Option<u32>,
    pub words: Vec<Word>,
}

pub struct LineView {
    pub text: Seq<char>,
    pub start_ms: Option<u32>,
    pub end_ms: Option<u32>,
    pub words: Seq<WordView>,
}

pub open spec fn words_view(words: Seq<Word>) -> Seq<WordView> {
    words.map_values(|w: Word| w@)
}

impl View for Line {
    type V = LineView;

    open spec fn view(&self) -> LineView {
        LineView {
            text: self.text@,
            start_ms: self.start_ms,
            end_ms: self.end_ms,
            words: words_view(self.words@),
        }
    }
}

pub open spec fn lines_view(lines: Seq<Line>) -> Seq<LineView> {
    lines.map_values(|l: Line| l@)
}

pub open spec fn max_u32(a: u32, b: u32) -> u32 {
    if a >= b {
        a
    } else {
        b
    }
}

/// The start of the line after `i`, if there is one and it is timed.
pub open spec fn next_line_start(lines: Seq<LineView>, i: int) -> Option<u32> {
    if i + 1 < lines.len() {
        lines[i + 1].start_ms
    } else {
        None
    }
}

/// The moment line `i` ends: its own end when that lies after its start (or it has
/// no start), else the start of the next line, else the later of the track's end
/// and its own start.
pub open spec fn line_end(lines: Seq<LineView>, i: int, duration_ms: u32) -> u32 {
    let line = lines[i];
    match line.end_ms {
        Some(end) if (line.start_ms is None || end > line.start_ms->0) => end,
        _ => match next_line_start(lines, i) {
            Some(next) => next,
            None => max_u32(duration_ms, line.start_ms.unwrap_or(0)),
        },
    }
}

/// Word `j` with its end filled in: its own end when after its start, else the
/// next word's start, else the end of its line; never before its start.
pub open spec fn finished_word(words: Seq<WordView>, j: int, line_end: u32) -> WordView {
    let word = words[j];
    let end = if word.end_ms > word.start_ms {
        word.end_ms
    } else if j + 1 < words.len() {
        words[j + 1].start_ms
    } else {
        line_end
    };
    WordView { text: word.text, start_ms: word.start_ms, end_ms: max_u32(end, word.start_ms) }
}

pub open spec fn finished_line(lines: Seq<LineView>, i: int, duration_ms: u32) -> LineView {
    let line = lines[i];
    let end = line_end(lines, i, duration_ms);
    LineView {
        text: line.text,
        start_ms: line.start_ms,
        end_ms: if line.start_ms is Some {
            Some(end)
        } else {
            None
        },
        words: Seq::new(line.words.len(), |j: int| finished_word(line.words, j, end)),
    }
}

pub open spec fn finished_lines(lines: Seq<LineView>, duration_ms: u32) -> Seq<LineView> {
    Seq::new(lines.len(), |i: int| finished_line(lines, i, duration_ms))
}

fn line_end_of(lines: &Vec<Line>, i: usize, duration_ms: u32) -> (r: u32)
    requires
        i < lines.len(),
    ensures
        r == line_end(lines_view(lines@), i as int, duration_ms),
{
    let line = &lines[i];
    let own = match line.end_ms {
        Some(end) => match line.start_ms {
            Some(start) => if end > start {
                Some(end)
            } else {
                None
            },
            None => Some(end),
        },
        None => None,
    };
    match own {
        Some(end) => end,
        None => {
            let next = if i + 1 < lines.len() {
                lines[i + 1].start_ms
            } else {
                None
            };
            match next {
                Some(next) => next,
                None => {
                    let start = match line.start_ms {
                        Some(s) => s,
                        None => 0,
                    };
                    if duration_ms >= start {
                        duration_ms
                    } else {
                        start
                    }
                },
            }
        },
    }
}

fn finish_words(words: &Vec<Word>, end: u32) -> (r: Vec<Word>)
    ensures
        words_view(r@) == Seq::new(
            words@.len(),
            |j: int| finished_word(words_view(words@), j, end),
        ),
{
    let mut out: Vec<Word> = Vec::new();
    let n = words.len();
    for j in 0..n
        invariant
            n == words@.len(),
            out@.len() == j,
            forall|k: int|
                0 <= k < j ==> #[trigger] out@[k]@ == finished_word(words_view(words@), k, end),
    {
        let word = &words[j];
        let own = if word.end_ms > word.start_ms {
            word.end_ms
        } else if j + 1 < n {
            words[j + 1].start_ms
        } else {
            end
        };
        let fixed = if own >= word.start_ms {
            own
        } else {
            word.start_ms
        };
        out.push(Word { text: word.text.clone(), start_ms: word.start_ms, end_ms: fixed });
    }
    assert(words_view(out@) =~= Seq::new(
        words@.len(),
        |j: int| finished_word(words_view(words@), j, end),
    ));
    out
}

/// Fills in the end of every timed line and of every word: a line ends at its own
/// end when that lies after its start, else where the next line starts, else at
/// the later of `duration_ms` and its start; untimed lines keep no end. A word
/// ends at its own end when that lies after its start, else at the next word's
/// start, else at its line's end, and never before it starts.
pub fn finish_timings(lines: &mut Vec<Line>, duration_ms: u32)
    ensures
        lines_view(final(lines)@) == finished_lines(lines_view(old(lines)@), duration_ms),
{
    let ghost before = lines_view(lines@);
    let mut out: Vec<Line> = Vec::new();
    let n = lines.len();
    for i in 0..n
        invariant
            n == lines@.len(),
            before == lines_view(lines@),
            out@.len() == i,
            forall|k: int|
                0 <= k < i ==> #[trigger] out@[k]@ == finished_line(before, k, duration_ms),
    {
        let end = line_end_of(lines, i, duration_ms);
        let line = &lines[i];
        let words = finish_words(&line.words, end);
        let end_ms = match line.start_ms {
            Some(_) => Some(end),
            None => None,
        };
        let fixed = Line { text: line.text.clone(), start_ms: line.start_ms, end_ms, words };
        proof {
            assert(fixed@.words =~= finished_line(before, i as int, duration_ms).words);
        }
        out.push(fixed);
    }
    assert(lines_view(out@) =~= finished_lines(before, duration_ms));
    *lines = out;
}

} // verus!

verus! {

/// Where a set of lyrics came from.
#[derive(Debug, Clone, Copy, PartialEq, Eq)]
pub enum Provider {
    Spotify,
    Amll,
    Lrclib,
}

impl Provider {
    pub open spec fn spec_name(self) -> Seq<char> {
        match self {
            Provider::Spotify => "Spotify"@,
            Provider::Amll => "AMLL"@,
            Provider::Lrclib => "LRCLIB"@,
        }
    }

    /// The name under which the provider is shown.
    pub fn name(self) -> (r: &'static str)
        ensures
            r@ == self.spec_name(),
    {
        match self {
            Provider::Spotify => "Spotify",
            Provider::Amll => "AMLL",
            Provider::Lrclib => "LRCLIB",
        }
    }
}

/// What is known of a track when its lyrics are looked up.
#[derive(Debug, Clone)]
pub struct Request {
    pub uri: String,
    pub title: String,
    pub artists: Vec<String>,
    pub duration_ms: u32,
}

#[derive(Debug, Clone, PartialEq, Eq)]
pub struct Lyrics {
    pub source: Provider,
    pub attribution: String,
    pub language: Option<String>,
    pub sync: Sync,
    pub romanization_available: bool,
    pub lines: Vec<Line>,
}

pub open spec fn opt_view(o: Option<String>) -> Option<Seq<char>> {
    match o {
        Some(s) => Some(s@),
        None => None,
    }
}

pub struct LyricsView {
    pub source: Provider,
    pub attribution: Seq<char>,
    pub language: Option<Seq<char>>,
    pub sync: Sync,
    pub romanization_available: bool,
    pub lines: Seq<LineView>,
}

impl View for Lyrics {
    type V = LyricsView;

    open spec fn view(&self) -> LyricsView {
        LyricsView {
            source: self.source,
            attribution: self.attribution@,
            language: opt_view(self.language),
            sync: self.sync,
            romanization_available: self.romanization_available,
            lines: lines_view(self.lines@),
        }
    }
}

/// Line `i` is shown at `position_ms`: it is timed, has started and has not ended (a
/// line without an end ends at `u32::MAX`).
pub open spec fn line_active(line: LineView, position_ms: u32) -> bool {
    line.start_ms is Some && line.start_ms->0 <= position_ms && position_ms < match line.end_ms {
        Some(end) => end,
        None => u32::MAX,
    }
}

pub open spec fn word_active(word: WordView, position_ms: u32) -> bool {
    word.start_ms <= position_ms && position_ms < word.end_ms
}

impl Lyrics {
    /// The last line that is active at `position_ms`, if any is.
    pub fn active_line(&self, position_ms: u32) -> (r: Option<usize>)
        ensures
            match r {
                Some(i) => i < self.lines@.len() && line_active(self.lines@[i as int]@, position_ms)
                    && forall|k: int|
                    i < k < self.lines@.len() ==> !line_active(
                        #[trigger] self.lines@[k]@,
                        position_ms,
                    ),
                None => forall|k: int|
                    0 <= k < self.lines@.len() ==> !line_active(
                        #[trigger] self.lines@[k]@,
                        position_ms,
                    ),
            },
    {
        let mut i = self.lines.len();
        while i > 0
            invariant
                i <= self.lines@.len(),
                forall|k: int|
                    i <= k < self.lines@.len() ==> !line_active(
                        #[trigger] self.lines@[k]@,
                        position_ms,
                    ),
            decreases i,
        {
            i = i - 1;
            let line = &self.lines[i];
            if let Some(start) = line.start_ms {
                let before_end = match line.end_ms {
                    Some(end) => position_ms < end,
                    None => position_ms < u32::MAX,
                };
                if start <= position_ms && before_end {
                    return Some(i);
                }
            }
        }
        None
    }

    /// The first word of line `line` that is active at `position_ms`; `None` when
    /// there is no such line or no such word.
    pub fn active_word(&self, line: usize, position_ms: u32) -> (r: Option<usize>)
        ensures
            line >= self.lines@.len() ==> r is None,
            line < self.lines@.len() ==> {
                let words = self.lines@[line as int]@.words;
                match r {
                    Some(j) => j < words.len() && word_active(words[j as int], position_ms)
                        && forall|k: int|
                        0 <= k < j ==> !word_active(#[trigger] words[k], position_ms),
                    None => forall|k: int|
                        0 <= k < words.len() ==> !word_active(#[trigger] words[k], position_ms),
                }
            },
    {
        if line >= self.lines.len() {
            return None;
        }
        let words = &self.lines[line].words;
        let ghost view = self.lines@[line as int]@.words;
        assert(view == words_view(words@));
        let n = words.len();
        for j in 0..n
            invariant
                n == words@.len(),
                line < self.lines@.len(),
                view == self.lines@[line as int]@.words,
                view == words_view(words@),
                forall|k: int| 0 <= k < j ==> !word_active(#[trigger] view[k], position_ms),
        {
            assert(view[j as int] == words@[j as int]@);
            if words[j].start_ms <= position_ms && position_ms < words[j].end_ms {
                return Some(j);
            }
        }
        None
    }

    /// Where playback goes when line `line` (and, if given, its word `word`) is
    /// picked: the start of that word when it exists, else the line's start, else
    /// the start of its first word.
    pub fn seek_position(&self, line: usize, word: Option<usize>) -> (r: Option<u32>)
        ensures
            r == spec_seek_position(self@.lines, line as int, word),
    {
        if line >= self.lines.len() {
            return None;
        }
        let l = &self.lines[line];
        if let Some(w) = word {
            if w < l.words.len() {
                return Some(l.words[w].start_ms);
            }
        }
        if let Some(start) = l.start_ms {
            return Some(start);
        }
        if l.words.len() > 0 {
            Some(l.words[0].start_ms)
        } else {
            None
        }
    }
}

pub open spec fn spec_seek_position(lines: Seq<LineView>, line: int, word: Option<usize>) -> Option<
    u32,
> {
    if line < 0 || line >= lines.len() {
        None
    } else {
        let l = lines[line];
        if word is Some && word->0 < l.words.len() {
            Some(l.words[word->0 as int].start_ms)
        } else if l.start_ms is Some {
            l.start_ms
        } else if l.words.len() > 0 {
            Some(l.words[0].start_ms)
        } else {
            None
        }
    }
}

/// Word timing when any line has words, line timing when any line has a start,
/// and no timing otherwise.
pub open spec fn spec_classify(lines: Seq<LineView>) -> Sync {
    if exists|i: int| 0 <= i < lines.len() && #[trigger] lines[i].words.len() > 0 {
        Sync::Word
    } else if exists|i: int| 0 <= i < lines.len() && #[trigger] lines[i].start_ms is Some {
        Sync::Line
    } else {
        Sync::Unsynced
    }
}

pub fn classify(lines: &Vec<Line>) -> (r: Sync)
    ensures
        r == spec_classify(lines_view(lines@)),
{
    let ghost v = lines_view(lines@);
    let n = lines.len();
    let mut timed = false;
    for i in 0..n
        invariant
            n == lines@.len(),
            v == lines_view(lines@),
            forall|k: int| 0 <= k < i ==> #[trigger] v[k].words.len() == 0,
            timed == exists|k: int| 0 <= k < i && #[trigger] v[k].start_ms is Some,
    {
        assert(v[i as int] == lines@[i as int]@);
        assert(v[i as int].words.len() == lines@[i as int].words@.len());
        if lines[i].words.len() > 0 {
            return Sync::Word;
        }
        if lines[i].start_ms.is_some() {
            timed = true;
        }
        assert(timed == exists|k: int| 0 <= k < i + 1 && #[trigger] v[k].start_ms is Some) by {
            if v[i as int].start_ms is Some {
                assert(0 <= i < i + 1);
            }
        }
    }
    if timed {
        Sync::Line
    } else {
        Sync::Unsynced
    }
}

} // verus!

verus! {

/// A script that romanization leaves as it is.
pub open spec fn plain_script(s: ScriptClass) -> bool {
    s == ScriptClass::Latin || s == ScriptClass::Common || s == ScriptClass::Inherited || s
        == ScriptClass::Unknown
}

pub open spec fn spec_romanization_available(lines: Seq<LineView>) -> bool {
    exists|i: int, k: int|
        0 <= i < lines.len() && 0 <= k < lines[i].text.len() && !plain_script(
            #[trigger] char_script(lines[i].text[k]),
        )
}

/// Whether romanization leaves characters of a script as they are.
pub fn is_plain_script(s: ScriptClass) -> (r: bool)
    ensures
        r == plain_script(s),
{
    s == ScriptClass::Latin || s == ScriptClass::Common || s == ScriptClass::Inherited || s
        == ScriptClass::Unknown
}

/// Whether a script is one of the Japanese kana.
pub fn is_kana(s: ScriptClass) -> (r: bool)
    ensures
        r == (s == ScriptClass::Hiragana || s == ScriptClass::Katakana),
{
    s == ScriptClass::Hiragana || s == ScriptClass::Katakana
}

fn has_foreign_script(text: &str) -> (r: bool)
    ensures
        r == exists|k: int| 0 <= k < text@.len() && !plain_script(#[trigger] char_script(text@[k])),
{
    let chars = chars_of(text);
    let n = chars.len();
    for k in 0..n
        invariant
            n == chars@.len(),
            chars@ == text@,
            forall|j: int| 0 <= j < k ==> plain_script(#[trigger] char_script(text@[j])),
    {
        if !is_plain_script(script_of(chars[k])) {
            return true;
        }
    }
    false
}

/// Whether any line holds a character of a script other than Latin, Common,
/// Inherited or Unknown.
pub fn romanization_available(lines: &Vec<Line>) -> (r: bool)
    ensures
        r == spec_romanization_available(lines_view(lines@)),
{
    let ghost v = lines_view(lines@);
    let n = lines.len();
    for i in 0..n
        invariant
            n == lines@.len(),
            v == lines_view(lines@),
            forall|j: int, k: int|
                0 <= j < i && 0 <= k < v[j].text.len() ==> plain_script(
                    #[trigger] char_script(v[j].text[k]),
                ),
    {
        assert(v[i as int].text == lines@[i as int].text@);
        if has_foreign_script(lines[i].text.as_str()) {
            return true;
        }
    }
    false
}

pub open spec fn is_j(c: char) -> bool {
    c == 'j' || c == 'J'
}

pub open spec fn is_a(c: char) -> bool {
    c == 'a' || c == 'A'
}

/// `ja` in any ASCII case, or a tag that starts with `ja-` in any ASCII case.
pub open spec fn japanese_tag(tag: Seq<char>) -> bool {
    (tag.len() == 2 && is_j(tag[0]) && is_a(tag[1])) || (tag.len() >= 3 && is_j(tag[0]) && is_a(
        tag[1],
    ) && tag[2] == '-')
}

/// A text is read as Japanese when its language tag says so or when it holds
/// hiragana or katakana.
pub open spec fn reads_as_japanese(text: Seq<char>, language: Option<Seq<char>>) -> bool {
    (language is Some && japanese_tag(language->0)) || exists|k: int|
        0 <= k < text.len() && (#[trigger] char_script(text[k]) == ScriptClass::Hiragana
            || char_script(text[k]) == ScriptClass::Katakana)
}

pub open spec fn spec_romanize(text: Seq<char>, language: Option<Seq<char>>) -> Seq<char> {
    if reads_as_japanese(text, language) {
        kakasi_romaji_of(text)
    } else {
        deunicode_of(text)
    }
}

fn is_japanese_tag(tag: &str) -> (r: bool)
    ensures
        r == japanese_tag(tag@),
{
    let chars = chars_of(tag);
    let n = chars.len();
    if n < 2 {
        return false;
    }
    let ja = (chars[0] == 'j' || chars[0] == 'J') && (chars[1] == 'a' || chars[1] == 'A');
    if n == 2 {
        ja
    } else {
        ja && chars[2] == '-'
    }
}

fn has_kana(text: &str) -> (r: bool)
    ensures
        r == exists|k: int|
            0 <= k < text@.len() && (#[trigger] char_script(text@[k]) == ScriptClass::Hiragana
                || char_script(text@[k]) == ScriptClass::Katakana),
{
    let chars = chars_of(text);
    let n = chars.len();
    for k in 0..n
        invariant
            n == chars@.len(),
            chars@ == text@,
            forall|j: int|
                0 <= j < k ==> !(#[trigger] char_script(text@[j]) == ScriptClass::Hiragana
                    || char_script(text@[j]) == ScriptClass::Katakana),
    {
        if is_kana(script_of(chars[k])) {
            return true;
        }
    }
    false
}

/// Romaji for Japanese text, an ASCII transliteration for any other.
pub fn romanize_text(text: &str, language: &Option<String>) -> (r: String)
    ensures
        r@ == spec_romanize(text@, opt_view(*language)),
{
    let tagged = match language {
        Some(tag) => is_japanese_tag(tag.as_str()),
        None => false,
    };
    if tagged || has_kana(text) {
        kakasi_romaji(text)
    } else {
        deunicode_text(text)
    }
}

pub open spec fn romanized_word(w: WordView, language: Option<Seq<char>>) -> WordView {
    WordView { text: spec_romanize(w.text, language), start_ms: w.start_ms, end_ms: w.end_ms }
}

pub open spec fn romanized_line(l: LineView, language: Option<Seq<char>>) -> LineView {
    LineView {
        text: spec_romanize(l.text, language),
        start_ms: l.start_ms,
        end_ms: l.end_ms,
        words: Seq::new(l.words.len(), |j: int| romanized_word(l.words[j], language)),
    }
}

/// The same lyrics with every line and word romanized, timings untouched, and no
/// further romanization offered.
pub open spec fn romanized_view(v: LyricsView) -> LyricsView {
    LyricsView {
        source: v.source,
        attribution: v.attribution,
        language: v.language,
        sync: v.sync,
        romanization_available: false,
        lines: Seq::new(v.lines.len(), |i: int| romanized_line(v.lines[i], v.language)),
    }
}

fn copy_language(language: &Option<String>) -> (r: Option<String>)
    ensures
        r == *language,
{
    match language {
        Some(s) => Some(s.clone()),
        None => None,
    }
}

impl Lyrics {
    /// The romanized lyrics, when romanization is available.
    pub fn romanized(&self) -> (r: Option<Lyrics>)
        ensures
            !self.romanization_available ==> r is None,
            self.romanization_available ==> r is Some && r->0@ == romanized_view(self@),
    {
        if !self.romanization_available {
            return None;
        }
        let ghost v = self@;
        let mut lines: Vec<Line> = Vec::new();
        let n = self.lines.len();
        for i in 0..n
            invariant
                n == self.lines@.len(),
                v == self@,
                lines@.len() == i,
                forall|k: int|
                    0 <= k < i ==> #[trigger] lines@[k]@ == romanized_line(v.lines[k], v.language),
        {
            let line = &self.lines[i];
            let mut words: Vec<Word> = Vec::new();
            let m = line.words.len();
            for j in 0..m
                invariant
                    m == line.words@.len(),
                    words@.len() == j,
                    forall|k: int|
                        0 <= k < j ==> #[trigger] words@[k]@ == romanized_word(
                            line.words@[k]@,
                            opt_view(self.language),
                        ),
            {
                let w = &line.words[j];
                words.push(
                    Word {
                        text: romanize_text(w.text.as_str(), &self.language),
                        start_ms: w.start_ms,
                        end_ms: w.end_ms,
                    },
                );
            }
            let text = romanize_text(line.text.as_str(), &self.language);
            let fixed = Line { text, start_ms: line.start_ms, end_ms: line.end_ms, words };
            assert(fixed@.words =~= romanized_line(v.lines[i as int], v.language).words);
            lines.push(fixed);
        }
        let r = Lyrics {
            source: self.source,
            attribution: self.attribution.clone(),
            language: copy_language(&self.language),
            sync: self.sync,
            romanization_available: false,
            lines,
        };
        assert(r@.lines =~= romanized_view(v).lines);
        Some(r)
    }
}

/// Lyrics from a provider, with romanization offered when any line needs it.
pub fn make_lyrics(
    source: Provider,
    attribution: String,
    language: Option<String>,
    sync: Sync,
    lines: Vec<Line>,
) -> (r: Lyrics)
    ensures
        r.source == source,
        r.attribution == attribution,
        r.language == language,
        r.sync == sync,
        r.lines == lines,
        r.romanization_available == spec_romanization_available(lines_view(lines@)),
{
    let romanization_available = romanization_available(&lines);
    Lyrics { source, attribution, romanization_available, language, sync, lines }
}

/// `Some` of a non-empty string, `None` of an empty one.
pub fn nonempty(value: String) -> (r: Option<String>)
    ensures
        value@.len() == 0 ==> r is None,
        value@.len() > 0 ==> r == Some(value),
{
    if value.as_str().is_empty() {
        None
    } else {
        Some(value)
    }
}

/// The attribution Spotify's lyrics carry when the response names none.
pub fn spotify_provider() -> (r: String)
    ensures
        r@ == "Spotify"@,
{
    String::from_str("Spotify")
}

/// Index `k` holds the first of the best-timed candidates.
pub open spec fn first_best(candidates: Seq<Lyrics>, k: int) -> bool {
    0 <= k < candidates.len() && (forall|j: int|
        0 <= j < candidates.len() ==> (#[trigger] candidates[j].sync).spec_rank()
            <= candidates[k].sync.spec_rank()) && (forall|j: int|
        0 <= j < k ==> (#[trigger] candidates[j].sync).spec_rank() < candidates[k].sync.spec_rank())
}

/// Of the lyrics that the providers found, the first of those with the most precise
/// timing.
pub fn best_lyrics(candidates: Vec<Lyrics>) -> (r: Option<Lyrics>)
    ensures
        candidates@.len() == 0 <==> r is None,
        r is Some ==> exists|k: int| first_best(candidates@, k) && r->0 == candidates@[k],
{
    let n = candidates.len();
    if n == 0 {
        return None;
    }
    let mut best: usize = 0;
    for i in 1..n
        invariant
            n == candidates@.len(),
            n > 0,
            best < i,
            forall|j: int|
                0 <= j < i ==> (#[trigger] candidates@[j].sync).spec_rank()
                    <= candidates@[best as int].sync.spec_rank(),
            forall|j: int|
                0 <= j < best ==> (#[trigger] candidates@[j].sync).spec_rank()
                    < candidates@[best as int].sync.spec_rank(),
    {
        if candidates[i].sync.rank() > candidates[best].sync.rank() {
            best = i;
        }
    }
    let mut candidates = candidates;
    let ghost all = candidates@;
    let chosen = candidates.remove(best);
    assert(first_best(all, best as int));
    Some(chosen)
}


/// Finishing the timings keeps every text and start, never ends a word before it
/// starts, and gives a line an end exactly when it has a start.
pub proof fn law_finished_timings(lines: Seq<LineView>, duration_ms: u32)
    ensures
        finished_lines(lines, duration_ms).len() == lines.len(),
        forall|i: int|
            0 <= i < lines.len() ==> {
                let f = #[trigger] finished_lines(lines, duration_ms)[i];
                &&& f.text == lines[i].text
                &&& f.start_ms == lines[i].start_ms
                &&& (f.end_ms is Some <==> lines[i].start_ms is Some)
                &&& f.words.len() == lines[i].words.len()
                &&& forall|j: int|
                    0 <= j < f.words.len() ==> {
                        &&& (#[trigger] f.words[j]).end_ms >= f.words[j].start_ms
                        &&& f.words[j].start_ms == lines[i].words[j].start_ms
                        &&& f.words[j].text == lines[i].words[j].text
                    }
            },
{
}

/// Romanizing changes texts only: the source, language, quality, and every line's
/// and word's timing stay, and no further romanization is offered.
pub proof fn law_romanized_keeps_timings(v: LyricsView)
    ensures
        romanized_view(v).lines.len() == v.lines.len(),
        romanized_view(v).source == v.source,
        romanized_view(v).sync == v.sync,
        romanized_view(v).language == v.language,
        !romanized_view(v).romanization_available,
        forall|i: int|
            0 <= i < v.lines.len() ==> {
                let l = #[trigger] romanized_view(v).lines[i];
                &&& l.start_ms == v.lines[i].start_ms
                &&& l.end_ms == v.lines[i].end_ms
                &&& l.words.len() == v.lines[i].words.len()
                &&& forall|j: int|
                    0 <= j < l.words.len() ==> (#[trigger] l.words[j]).start_ms
                        == v.lines[i].words[j].start_ms && l.words[j].end_ms
                        == v.lines[i].words[j].end_ms
            },
{
}

/// The quality order: word timing above line timing above none.
pub proof fn law_sync_order()
    ensures
        Sync::Word.spec_rank() > Sync::Line.spec_rank(),
        Sync::Line.spec_rank() > Sync::Unsynced.spec_rank(),
{
}


/// Finishing timings a second time changes nothing, for lines that have an end only
/// where they have a start.
pub proof fn law_finish_timings_idempotent(lines: Seq<LineView>, duration_ms: u32)
    requires
        forall|i: int| 0 <= i < lines.len() ==> (#[trigger] lines[i]).end_ms is Some ==> lines[i].start_ms is Some,
    ensures
        finished_lines(finished_lines(lines, duration_ms), duration_ms) == finished_lines(lines, duration_ms),
{
    let f = finished_lines(lines, duration_ms);
    let g = finished_lines(f, duration_ms);
    assert forall|i: int| 0 <= i < lines.len() implies #[trigger] line_end(f, i, duration_ms) == line_end(
        lines,
        i,
        duration_ms,
    ) by {
        assert(f[i] == finished_line(lines, i, duration_ms));
        if i + 1 < lines.len() {
            assert(f[i + 1] == finished_line(lines, i + 1, duration_ms));
        }
    }
    assert forall|i: int| 0 <= i < lines.len() implies #[trigger] g[i] == f[i] by {
        let e = line_end(lines, i, duration_ms);
        assert(line_end(f, i, duration_ms) == e);
        let fw = f[i].words;
        let gw = g[i].words;
        assert(fw.len() == lines[i].words.len());
        assert forall|j: int| 0 <= j < fw.len() implies #[trigger] gw[j] == fw[j] by {
            assert(fw[j] == finished_word(lines[i].words, j, e));
            if j + 1 < fw.len() {
                assert(fw[j + 1] == finished_word(lines[i].words, j + 1, e));
            }
            assert(gw[j] == finished_word(fw, j, e));
        }
        assert(gw =~= fw);
    }
    assert(g =~= f);
}

/// When a timed line ends once its timings are finished: at its own end when that
/// lies after its start, whatever follows; else at the start of the next line when
/// that is timed; else at the later of the track's end and its own start. A line
/// without a start gets no end. A word keeps its own end when that lies after its
/// start; else it ends at the next word's start, or the last word at its line's end
/// (never before its own start).
pub proof fn law_line_ends(lines: Seq<LineView>, duration_ms: u32)
    ensures
        forall|i: int|
            0 <= i < lines.len() ==> {
                let f = #[trigger] finished_lines(lines, duration_ms)[i];
                let l = lines[i];
                let s = l.start_ms->0;
                let own = l.end_ms is Some && l.end_ms->0 > s;
                let next_timed = i + 1 < lines.len() && lines[i + 1].start_ms is Some;
                &&& l.start_ms is None ==> f.end_ms is None
                &&& (l.start_ms is Some && own) ==> f.end_ms == l.end_ms
                &&& (l.start_ms is Some && !own && next_timed) ==> f.end_ms == lines[i
                    + 1].start_ms
                &&& (l.start_ms is Some && !own && !next_timed) ==> f.end_ms == Some(
                    if duration_ms >= s {
                        duration_ms
                    } else {
                        s
                    },
                )
                &&& forall|j: int|
                    0 <= j < l.words.len() ==> {
                        let w = l.words[j];
                        let g = #[trigger] f.words[j];
                        let le = f.end_ms->0;
                        &&& w.end_ms > w.start_ms ==> g.end_ms == w.end_ms
                        &&& (w.end_ms <= w.start_ms && j + 1 < l.words.len()) ==> g.end_ms == (
                        if l.words[j + 1].start_ms >= w.start_ms {
                            l.words[j + 1].start_ms
                        } else {
                            w.start_ms
                        })
                        &&& (w.end_ms <= w.start_ms && j + 1 == l.words.len() && f.end_ms
                            is Some) ==> g.end_ms == (if le >= w.start_ms {
                            le
                        } else {
                            w.start_ms
                        })
                    }
            },
{
}

/// Seeking lands where the lyrics show what was chosen: a word with a proper end is
/// shown at the moment a seek to it goes to, and so is a timed line with its own
/// end after its start when a seek goes to the line alone; a line that does not
/// exist gives no position.
pub proof fn law_seek_lands_on_choice(lines: Seq<LineView>, i: int, j: usize)
    ensures
        (i < 0 || i >= lines.len()) ==> spec_seek_position(lines, i, Some(j)) is None,
        (0 <= i < lines.len() && j < lines[i].words.len() && lines[i].words[j as int].end_ms
            > lines[i].words[j as int].start_ms) ==> ({
            let p = spec_seek_position(lines, i, Some(j));
            p is Some && word_active(lines[i].words[j as int], p->0)
        }),
        (0 <= i < lines.len() && lines[i].start_ms is Some && lines[i].end_ms is Some
            && lines[i].end_ms->0 > lines[i].start_ms->0) ==> ({
            let p = spec_seek_position(lines, i, None);
            p is Some && line_active(lines[i], p->0)
        }),
{
}

/// Lyrics are word-synced when some line has words, else line-synced when some line
/// has a start, else unsynced; finishing their timings never changes which.
pub proof fn law_classify(lines: Seq<LineView>, duration_ms: u32)
    ensures
        (exists|i: int| 0 <= i < lines.len() && #[trigger] lines[i].words.len() > 0)
            ==> spec_classify(lines) == Sync::Word,
        ((forall|i: int| 0 <= i < lines.len() ==> #[trigger] lines[i].words.len() == 0)
            && exists|i: int| 0 <= i < lines.len() && #[trigger] lines[i].start_ms is Some)
            ==> spec_classify(lines) == Sync::Line,
        (forall|i: int|
            0 <= i < lines.len() ==> #[trigger] lines[i].words.len() == 0 && lines[i].start_ms
                is None) ==> spec_classify(lines) == Sync::Unsynced,
        spec_classify(finished_lines(lines, duration_ms)) == spec_classify(lines),
{
    let f = finished_lines(lines, duration_ms);
    assert forall|i: int| 0 <= i < lines.len() implies #[trigger] f[i].words.len()
        == lines[i].words.len() && f[i].start_ms == lines[i].start_ms by {
        assert(f[i] == finished_line(lines, i, duration_ms));
    }
    if exists|i: int| 0 <= i < lines.len() && #[trigger] lines[i].words.len() > 0 {
        let i = choose|i: int| 0 <= i < lines.len() && #[trigger] lines[i].words.len() > 0;
        assert(f[i].words.len() > 0);
    } else if exists|i: int| 0 <= i < lines.len() && #[trigger] lines[i].start_ms is Some {
        let i = choose|i: int| 0 <= i < lines.len() && #[trigger] lines[i].start_ms is Some;
        assert(f[i].start_ms is Some);
        assert forall|k: int| 0 <= k < f.len() implies #[trigger] f[k].words.len() == 0 by {
            assert(f[k].words.len() == lines[k].words.len());
        }
    } else {
        assert forall|k: int| 0 <= k < f.len() implies #[trigger] f[k].words.len() == 0
            && f[k].start_ms is None by {
            assert(f[k].words.len() == lines[k].words.len());
        }
    }
}

} // verus!
