use crate::lyrics::{
    Line, LineView, Lyrics, Provider, Word, WordView, classify, finish_timings, lines_view,
    make_lyrics, opt_view, spec_classify, words_view,
};
use crate::sources::lyrics_of;
use crate::text::{chars_of, slice_chars, trim, trim_chars};
use crate::timing::{parse_time, spec_parse_time};
use crate::xml::{
    XmlAttribute, XmlAttributeView, XmlToken, XmlTokenView, lossy_utf8, next_xml_token,
    utf8_lossy, xml_reader, xml_tokens_of, xml_unescape, xml_unescape_of,
};
use vstd::prelude::*;

verus! {

pub open spec fn tt_name() -> Seq<u8> {
    seq![116u8, 116u8]
}

pub open spec fn p_name() -> Seq<u8> {
    seq![112u8]
}

pub open spec fn span_name() -> Seq<u8> {
    seq![115u8, 112u8, 97u8, 110u8]
}

pub open spec fn lang_name() -> Seq<u8> {
    seq![108u8, 97u8, 110u8, 103u8]
}

pub open spec fn begin_name() -> Seq<u8> {
    seq![98u8, 101u8, 103u8, 105u8, 110u8]
}

pub open spec fn end_name() -> Seq<u8> {
    seq![101u8, 110u8, 100u8]
}

pub open spec fn role_name() -> Seq<u8> {
    seq![114u8, 111u8, 108u8, 101u8]
}

/// The value of the first well-formed attribute named `name`, decoded as
/// `String::from_utf8_lossy` decodes it.
pub open spec fn spec_attribute(attributes: Seq<XmlAttributeView>, name: Seq<u8>) -> Option<
    Seq<char>,
>
    decreases attributes.len(),
{
    if attributes.len() == 0 {
        None
    } else {
        match attributes[0] {
            XmlAttributeView::Read { name: n, value } => if n == name {
                Some(lossy_utf8(value))
            } else {
                spec_attribute(attributes.drop_first(), name)
            },
            XmlAttributeView::Malformed => spec_attribute(attributes.drop_first(), name),
        }
    }
}

/// A time attribute, read as `parse_time` reads it.
pub open spec fn attribute_time(attributes: Seq<XmlAttributeView>, name: Seq<u8>) -> Option<u32> {
    match spec_attribute(attributes, name) {
        Some(t) => spec_parse_time(t),
        None => None,
    }
}

pub open spec fn is_newline(c: char) -> bool {
    c == '\n' || c == '\r'
}

pub open spec fn trim_newlines_start(s: Seq<char>) -> Seq<char>
    decreases s.len(),
{
    if s.len() > 0 && is_newline(s[0]) {
        trim_newlines_start(s.drop_first())
    } else {
        s
    }
}

pub open spec fn trim_newlines_end(s: Seq<char>) -> Seq<char>
    decreases s.len(),
{
    if s.len() > 0 && is_newline(s.last()) {
        trim_newlines_end(s.drop_last())
    } else {
        s
    }
}

/// `s` without line breaks at either end, as `trim_matches(['\n', '\r'])` gives it.
pub open spec fn trim_newlines(s: Seq<char>) -> Seq<char> {
    trim_newlines_end(trim_newlines_start(s))
}

#[derive(Debug, Clone, Copy, PartialEq, Eq, Structural)]
pub enum Progress {
    Reading,
    Finished,
    Failed,
}

/// A `<p>` being read.
pub struct OpenLineView {
    pub text: Seq<char>,
    pub start_ms: Option<u32>,
    pub end_ms: Option<u32>,
    pub words: Seq<WordView>,
}

/// Where the reading of a TTML document stands.
pub struct TtmlView {
    pub lines: Seq<LineView>,
    pub line: Option<OpenLineView>,
    pub word: Option<WordView>,
    pub language: Option<Seq<char>>,
    pub ignored: nat,
    pub progress: Progress,
}

pub open spec fn ttml_start() -> TtmlView {
    TtmlView {
        lines: seq![],
        line: None,
        word: None,
        language: None,
        ignored: 0,
        progress: Progress::Reading,
    }
}

pub open spec fn x_bg() -> Seq<char> {
    seq!['x', '-', 'b', 'g']
}

pub open spec fn x_translation() -> Seq<char> {
    seq!['x', '-', 't', 'r', 'a', 'n', 's', 'l', 'a', 't', 'i', 'o', 'n']
}

pub open spec fn on_start(s: TtmlView, name: Seq<u8>, attributes: Seq<XmlAttributeView>) -> TtmlView {
    if s.ignored > 0 {
        TtmlView { ignored: s.ignored + 1, ..s }
    } else if name == tt_name() {
        TtmlView { language: spec_attribute(attributes, lang_name()), ..s }
    } else if name == p_name() {
        TtmlView {
            line: Some(
                OpenLineView {
                    text: seq![],
                    start_ms: attribute_time(attributes, begin_name()),
                    end_ms: attribute_time(attributes, end_name()),
                    words: seq![],
                },
            ),
            ..s
        }
    } else if name == span_name() && s.line is Some {
        let role = spec_attribute(attributes, role_name());
        if role == Some(x_bg()) || role == Some(x_translation()) {
            TtmlView { ignored: 1, ..s }
        } else {
            match (attribute_time(attributes, begin_name()), attribute_time(attributes, end_name())) {
                (Some(b), Some(e)) => TtmlView {
                    word: Some(WordView { text: seq![], start_ms: b, end_ms: e }),
                    ..s
                },
                _ => s,
            }
        }
    } else {
        s
    }
}

pub open spec fn on_text(s: TtmlView, bytes: Seq<u8>) -> TtmlView {
    if s.ignored > 0 {
        s
    } else {
        match xml_unescape_of(lossy_utf8(bytes)) {
            None => TtmlView { progress: Progress::Failed, ..s },
            Some(u) => match s.line {
                None => s,
                Some(l) => {
                    let text = l.text + u;
                    match s.word {
                        Some(w) => TtmlView {
                            line: Some(OpenLineView { text, ..l }),
                            word: Some(WordView { text: w.text + u, ..w }),
                            ..s
                        },
                        None => if l.words.len() > 0 {
                            let last = l.words.last();
                            TtmlView {
                                line: Some(
                                    OpenLineView {
                                        text,
                                        words: l.words.update(
                                            l.words.len() - 1,
                                            WordView { text: last.text + u, ..last },
                                        ),
                                        ..l
                                    },
                                ),
                                ..s
                            }
                        } else {
                            TtmlView { line: Some(OpenLineView { text, ..l }), ..s }
                        },
                    }
                },
            },
        }
    }
}

pub open spec fn on_end(s: TtmlView, name: Seq<u8>) -> TtmlView {
    if s.ignored > 0 {
        TtmlView { ignored: (s.ignored - 1) as nat, ..s }
    } else if name == span_name() {
        match s.word {
            Some(w) => if w.text.len() > 0 && s.line is Some {
                let l = s.line->0;
                TtmlView {
                    word: None,
                    line: Some(OpenLineView { words: l.words.push(w), ..l }),
                    ..s
                }
            } else {
                TtmlView { word: None, ..s }
            },
            None => s,
        }
    } else if name == p_name() {
        match s.line {
            Some(l) => if trim(l.text).len() > 0 || l.words.len() > 0 {
                TtmlView {
                    line: None,
                    lines: s.lines.push(
                        LineView {
                            text: trim_newlines(l.text),
                            start_ms: l.start_ms,
                            end_ms: l.end_ms,
                            words: l.words,
                        },
                    ),
                    ..s
                }
            } else {
                TtmlView { line: None, ..s }
            },
            None => s,
        }
    } else {
        s
    }
}

/// One step of reading: what a token does to the state. Spans with the roles
/// `x-bg` and `x-translation` are skipped with everything inside them; timed spans
/// become words; text is added to the open line and to the open word (or, between
/// words, to the last word); a `<p>` with text or words becomes a line.
pub open spec fn ttml_step(s: TtmlView, t: XmlTokenView) -> TtmlView {
    if s.progress != Progress::Reading {
        s
    } else {
        match t {
            XmlTokenView::Start { name, attributes } => on_start(s, name, attributes),
            XmlTokenView::Text(bytes) => on_text(s, bytes),
            XmlTokenView::End { name } => on_end(s, name),
            XmlTokenView::Eof => TtmlView { progress: Progress::Finished, ..s },
            XmlTokenView::Other => s,
            XmlTokenView::Error => TtmlView { progress: Progress::Failed, ..s },
        }
    }
}

pub open spec fn ttml_run(tokens: Seq<XmlTokenView>) -> TtmlView
    decreases tokens.len(),
{
    if tokens.len() == 0 {
        ttml_start()
    } else {
        ttml_step(ttml_run(tokens.drop_last()), tokens.last())
    }
}

/// The lyrics that a TTML document read as `tokens` gives: `None` when the reader
/// reports an error or a text cannot be unescaped, or when no line is found.
pub open spec fn spec_ttml(
    tokens: Seq<XmlTokenView>,
    source: Provider,
    attribution: Seq<char>,
    duration_ms: u32,
) -> Option<crate::lyrics::LyricsView> {
    let s = ttml_run(tokens);
    if s.progress == Progress::Failed || s.lines.len() == 0 {
        None
    } else {
        Some(lyrics_of(source, attribution, s.language, s.lines, duration_ms))
    }
}

struct OpenLine {
    text: String,
    start_ms: Option<u32>,
    end_ms: Option<u32>,
    words: Vec<Word>,
}

impl View for OpenLine {
    type V = OpenLineView;

    closed spec fn view(&self) -> OpenLineView {
        OpenLineView {
            text: self.text@,
            start_ms: self.start_ms,
            end_ms: self.end_ms,
            words: words_view(self.words@),
        }
    }
}

struct Ttml {
    lines: Vec<Line>,
    line: Option<OpenLine>,
    word: Option<Word>,
    language: Option<String>,
    ignored: usize,
    progress: Progress,
}

impl View for Ttml {
    type V = TtmlView;

    closed spec fn view(&self) -> TtmlView {
        TtmlView {
            lines: lines_view(self.lines@),
            line: match self.line {
                Some(l) => Some(l@),
                None => None,
            },
            word: match self.word {
                Some(w) => Some(w@),
                None => None,
            },
            language: opt_view(self.language),
            ignored: self.ignored as nat,
            progress: self.progress,
        }
    }
}

fn bytes_are(bytes: &Vec<u8>, expected: &[u8]) -> (r: bool)
    ensures
        r == (bytes@ == expected@),
{
    if bytes.len() != expected.len() {
        assert(bytes@.len() != expected@.len());
        return false;
    }
    let n = bytes.len();
    for i in 0..n
        invariant
            n == bytes@.len(),
            n == expected@.len(),
            forall|k: int| 0 <= k < i ==> bytes@[k] == expected@[k],
    {
        if bytes[i] != expected[i] {
            return false;
        }
    }
    assert(bytes@ =~= expected@);
    true
}

fn tt_bytes() -> (r: Vec<u8>)
    ensures
        r@ == tt_name(),
{
    let mut v: Vec<u8> = Vec::new();
    v.push(116u8);
    v.push(116u8);
    assert(v@ =~= tt_name());
    v
}

fn p_bytes() -> (r: Vec<u8>)
    ensures
        r@ == p_name(),
{
    let mut v: Vec<u8> = Vec::new();
    v.push(112u8);
    assert(v@ =~= p_name());
    v
}

fn span_bytes() -> (r: Vec<u8>)
    ensures
        r@ == span_name(),
{
    let mut v: Vec<u8> = Vec::new();
    v.push(115u8);
    v.push(112u8);
    v.push(97u8);
    v.push(110u8);
    assert(v@ =~= span_name());
    v
}

fn lang_bytes() -> (r: Vec<u8>)
    ensures
        r@ == lang_name(),
{
    let mut v: Vec<u8> = Vec::new();
    v.push(108u8);
    v.push(97u8);
    v.push(110u8);
    v.push(103u8);
    assert(v@ =~= lang_name());
    v
}

fn begin_bytes() -> (r: Vec<u8>)
    ensures
        r@ == begin_name(),
{
    let mut v: Vec<u8> = Vec::new();
    v.push(98u8);
    v.push(101u8);
    v.push(103u8);
    v.push(105u8);
    v.push(110u8);
    assert(v@ =~= begin_name());
    v
}

fn end_bytes() -> (r: Vec<u8>)
    ensures
        r@ == end_name(),
{
    let mut v: Vec<u8> = Vec::new();
    v.push(101u8);
    v.push(110u8);
    v.push(100u8);
    assert(v@ =~= end_name());
    v
}

fn role_bytes() -> (r: Vec<u8>)
    ensures
        r@ == role_name(),
{
    let mut v: Vec<u8> = Vec::new();
    v.push(114u8);
    v.push(111u8);
    v.push(108u8);
    v.push(101u8);
    assert(v@ =~= role_name());
    v
}

fn skipped_role(role: &String) -> (r: bool)
    ensures
        r == (role@ == x_bg() || role@ == x_translation()),
{
    let chars = chars_of(role.as_str());
    let n = chars.len();
    if n == 4 {
        let r = chars[0] == 'x' && chars[1] == '-' && chars[2] == 'b' && chars[3] == 'g';
        if r {
            assert(chars@ =~= x_bg());
        }
        return r;
    }
    if n == 13 {
        let r = chars[0] == 'x' && chars[1] == '-' && chars[2] == 't' && chars[3] == 'r'
            && chars[4] == 'a' && chars[5] == 'n' && chars[6] == 's' && chars[7] == 'l'
            && chars[8] == 'a' && chars[9] == 't' && chars[10] == 'i' && chars[11] == 'o'
            && chars[12] == 'n';
        if r {
            assert(chars@ =~= x_translation());
        }
        return r;
    }
    false
}

/// The value of the first well-formed attribute named `name`.
fn attribute(attributes: &Vec<XmlAttribute>, name: &[u8]) -> (r: Option<String>)
    ensures
        opt_view(r) == spec_attribute(attributes@.map_values(|a: XmlAttribute| a@), name@),
{
    let ghost all = attributes@.map_values(|a: XmlAttribute| a@);
    assert(all.skip(0) =~= all);
    let n = attributes.len();
    for i in 0..n
        invariant
            n == attributes@.len(),
            all == attributes@.map_values(|a: XmlAttribute| a@),
            spec_attribute(all, name@) == spec_attribute(all.skip(i as int), name@),
    {
        let ghost rest = all.skip(i as int);
        assert(rest[0] == attributes@[i as int]@);
        assert(rest.drop_first() =~= all.skip(i + 1));
        match &attributes[i] {
            XmlAttribute::Read { name: key, value } => {
                if bytes_are(key, name) {
                    return Some(utf8_lossy(value.as_slice()));
                }
            },
            XmlAttribute::Malformed => {},
        }
    }
    assert(all.skip(n as int) =~= seq![]);
    None
}

fn attribute_time_of(attributes: &Vec<XmlAttribute>, name: &[u8]) -> (r: Option<u32>)
    ensures
        r == attribute_time(attributes@.map_values(|a: XmlAttribute| a@), name@),
{
    match attribute(attributes, name) {
        Some(t) => parse_time(t.as_str()),
        None => None,
    }
}

fn trim_newlines_of(s: &String) -> (r: String)
    ensures
        r@ == trim_newlines(s@),
{
    let chars = chars_of(s.as_str());
    assert(chars@.skip(0) =~= chars@);
    let mut i: usize = 0;
    while i < chars.len() && (chars[i] == '\n' || chars[i] == '\r')
        invariant
            i <= chars@.len(),
            trim_newlines_start(chars@) == trim_newlines_start(chars@.skip(i as int)),
        decreases chars@.len() - i,
    {
        proof {
            let t = chars@.skip(i as int);
            assert(t.drop_first() =~= chars@.skip(i + 1));
        }
        i += 1;
    }
    let rest = slice_chars(chars.as_slice(), i, chars.len());
    assert(rest@ =~= chars@.skip(i as int));
    assert(trim_newlines_start(chars@) == rest@);
    let mut j: usize = rest.len();
    assert(rest@.take(j as int) =~= rest@);
    while j > 0 && (rest[j - 1] == '\n' || rest[j - 1] == '\r')
        invariant
            j <= rest@.len(),
            trim_newlines_end(rest@) == trim_newlines_end(rest@.take(j as int)),
        decreases j,
    {
        proof {
            let t = rest@.take(j as int);
            assert(t.drop_last() =~= rest@.take(j - 1));
        }
        j -= 1;
    }
    let kept = slice_chars(rest.as_slice(), 0, j);
    assert(kept@ =~= rest@.take(j as int));
    crate::text::string_from_chars(kept.as_slice())
}

fn open_line_words(l: &OpenLine) -> (r: Vec<Word>)
    ensures
        words_view(r@) == l@.words,
{
    let mut out: Vec<Word> = Vec::new();
    let n = l.words.len();
    for j in 0..n
        invariant
            n == l.words@.len(),
            out@.len() == j,
            forall|k: int| 0 <= k < j ==> #[trigger] out@[k]@ == l.words@[k]@,
    {
        let w = &l.words[j];
        out.push(Word { text: w.text.clone(), start_ms: w.start_ms, end_ms: w.end_ms });
    }
    assert(words_view(out@) =~= l@.words);
    out
}

fn start_tag(s: Ttml, name: &Vec<u8>, attributes: &Vec<XmlAttribute>) -> (r: Ttml)
    requires
        s.ignored < usize::MAX,
    ensures
        r@ == on_start(s@, name@, attributes@.map_values(|a: XmlAttribute| a@)),
{
    let ghost attrs = attributes@.map_values(|a: XmlAttribute| a@);
    let mut s = s;
    if s.ignored > 0 {
        s.ignored = s.ignored + 1;
        return s;
    }
    if bytes_are(name, tt_bytes().as_slice()) {
        s.language = attribute(attributes, lang_bytes().as_slice());
        return s;
    }
    if bytes_are(name, p_bytes().as_slice()) {
        let start_ms = attribute_time_of(attributes, begin_bytes().as_slice());
        let end_ms = attribute_time_of(attributes, end_bytes().as_slice());
        let line = OpenLine { text: String::new(), start_ms, end_ms, words: Vec::new() };
        assert(line@.words =~= seq![]);
        s.line = Some(line);
        return s;
    }
    if bytes_are(name, span_bytes().as_slice()) && s.line.is_some() {
        let role = attribute(attributes, role_bytes().as_slice());
        let skipped = match &role {
            Some(r) => skipped_role(r),
            None => false,
        };
        if skipped {
            s.ignored = 1;
            return s;
        }
        let start_ms = attribute_time_of(attributes, begin_bytes().as_slice());
        let end_ms = attribute_time_of(attributes, end_bytes().as_slice());
        match (start_ms, end_ms) {
            (Some(b), Some(e)) => {
                s.word = Some(Word { text: String::new(), start_ms: b, end_ms: e });
            },
            _ => {},
        }
        return s;
    }
    s
}

fn text_data(s: Ttml, bytes: &Vec<u8>) -> (r: Ttml)
    ensures
        r@ == on_text(s@, bytes@),
{
    let mut s = s;
    if s.ignored > 0 {
        return s;
    }
    let decoded = utf8_lossy(bytes.as_slice());
    let unescaped = match xml_unescape(decoded.as_str()) {
        Some(u) => u,
        None => {
            s.progress = Progress::Failed;
            return s;
        },
    };
    let Ttml { lines, line, word, language, ignored, progress } = s;
    match line {
        None => Ttml { lines, line: None, word, language, ignored, progress },
        Some(l) => {
            let OpenLine { text, start_ms, end_ms, words } = l;
            let mut text = text;
            text.append(unescaped.as_str());
            match word {
                Some(w) => {
                    let mut wt = w.text;
                    wt.append(unescaped.as_str());
                    let w2 = Word { text: wt, start_ms: w.start_ms, end_ms: w.end_ms };
                    Ttml {
                        lines,
                        line: Some(OpenLine { text, start_ms, end_ms, words }),
                        word: Some(w2),
                        language,
                        ignored,
                        progress,
                    }
                },
                None => {
                    let mut words = words;
                    if words.len() > 0 {
                        let ghost before = words@;
                        let last = words.pop().unwrap();
                        let mut lt = last.text;
                        lt.append(unescaped.as_str());
                        words.push(Word { text: lt, start_ms: last.start_ms, end_ms: last.end_ms });
                        assert(words_view(words@) =~= words_view(before).update(
                            before.len() - 1,
                            WordView { text: before.last()@.text + unescaped@, ..before.last()@ },
                        ));
                    }
                    Ttml {
                        lines,
                        line: Some(OpenLine { text, start_ms, end_ms, words }),
                        word: None,
                        language,
                        ignored,
                        progress,
                    }
                },
            }
        },
    }
}

fn end_tag(s: Ttml, name: &Vec<u8>) -> (r: Ttml)
    ensures
        r@ == on_end(s@, name@),
{
    let mut s = s;
    if s.ignored > 0 {
        s.ignored = s.ignored - 1;
        return s;
    }
    if bytes_are(name, span_bytes().as_slice()) {
        let Ttml { lines, line, word, language, ignored, progress } = s;
        return match word {
            Some(w) => {
                let has_text = !w.text.as_str().is_empty();
                match line {
                    Some(l) => {
                        if has_text {
                            let OpenLine { text, start_ms, end_ms, words } = l;
                            let mut words = words;
                            let ghost before = words@;
                            words.push(w);
                            assert(words_view(words@) =~= words_view(before).push(w@));
                            Ttml {
                                lines,
                                line: Some(OpenLine { text, start_ms, end_ms, words }),
                                word: None,
                                language,
                                ignored,
                                progress,
                            }
                        } else {
                            Ttml { lines, line: Some(l), word: None, language, ignored, progress }
                        }
                    },
                    None => Ttml { lines, line: None, word: None, language, ignored, progress },
                }
            },
            None => Ttml { lines, line, word: None, language, ignored, progress },
        };
    }
    if bytes_are(name, p_bytes().as_slice()) {
        let Ttml { lines, line, word, language, ignored, progress } = s;
        return match line {
            Some(l) => {
                let chars = chars_of(l.text.as_str());
                let trimmed = trim_chars(chars.as_slice());
                let mut lines = lines;
                if trimmed.len() > 0 || l.words.len() > 0 {
                    let text = trim_newlines_of(&l.text);
                    let words = open_line_words(&l);
                    let ghost before = lines@;
                    let done = Line { text, start_ms: l.start_ms, end_ms: l.end_ms, words };
                    lines.push(done);
                    assert(lines_view(lines@) =~= lines_view(before).push(done@));
                }
                Ttml { lines, line: None, word, language, ignored, progress }
            },
            None => Ttml { lines, line: None, word, language, ignored, progress },
        };
    }
    s
}

fn step(s: Ttml, token: &XmlToken) -> (r: Ttml)
    requires
        token is Start ==> s.ignored < usize::MAX,
    ensures
        r@ == ttml_step(s@, token@),
        r.ignored <= s.ignored + 1,
{
    if s.progress != Progress::Reading {
        return s;
    }
    match token {
        XmlToken::Start { name, attributes } => start_tag(s, name, attributes),
        XmlToken::Text(bytes) => text_data(s, bytes),
        XmlToken::End { name } => end_tag(s, name),
        XmlToken::Eof => {
            let mut s = s;
            s.progress = Progress::Finished;
            s
        },
        XmlToken::Other => s,
        XmlToken::Error => {
            let mut s = s;
            s.progress = Progress::Failed;
            s
        },
    }
}

fn finish(s: Ttml, source: Provider, attribution: &str, duration_ms: u32) -> (r: Option<Lyrics>)
    ensures
        match (if s@.progress == Progress::Failed || s@.lines.len() == 0 {
            None
        } else {
            Some(lyrics_of(source, attribution@, s@.language, s@.lines, duration_ms))
        }) {
            Some(v) => r is Some && r->0@ == v,
            None => r is None,
        },
{
    if s.progress == Progress::Failed {
        return None;
    }
    let Ttml { lines, line: _, word: _, language, ignored: _, progress: _ } = s;
    let mut lines = lines;
    let sync = classify(&lines);
    finish_timings(&mut lines, duration_ms);
    assert(lines_view(lines@).len() == lines@.len());
    if lines.len() == 0 {
        return None;
    }
    Some(make_lyrics(source, String::from_str(attribution), language, sync, lines))
}

fn fresh() -> (r: Ttml)
    ensures
        r@ == ttml_start(),
        r.ignored == 0,
{
    let r = Ttml {
        lines: Vec::new(),
        line: None,
        word: None,
        language: None,
        ignored: 0,
        progress: Progress::Reading,
    };
    assert(r@.lines =~= seq![]);
    r
}

/// Lyrics from the tokens of a TTML document: one line per `<p>` that has text or
/// timed words, its words from its timed `<span>`s (spaces between spans stay with
/// the word before), background and translation spans left out, and the document's
/// language from `<tt xml:lang>`. `None` when the tokens report an error or an
/// unreadable escape, or when no line is found.
pub fn ttml_lyrics(tokens: &Vec<XmlToken>, source: Provider, attribution: &str, duration_ms: u32) -> (r:
    Option<Lyrics>)
    ensures
        match spec_ttml(tokens@.map_values(|t: XmlToken| t@), source, attribution@, duration_ms) {
            Some(v) => r is Some && r->0@ == v,
            None => r is None,
        },
{
    let ghost all = tokens@.map_values(|t: XmlToken| t@);
    let mut s = fresh();
    let n = tokens.len();
    for i in 0..n
        invariant
            n == tokens@.len(),
            all == tokens@.map_values(|t: XmlToken| t@),
            s@ == ttml_run(all.take(i as int)),
            s.ignored <= i,
    {
        proof {
            assert(all.take(i + 1).drop_last() =~= all.take(i as int));
            assert(all.take(i + 1).last() == tokens@[i as int]@);
        }
        s = step(s, &tokens[i]);
    }
    assert(all.take(n as int) =~= all);
    finish(s, source, attribution, duration_ms)
}

/// Once reading has stopped, the tokens that follow change nothing.
proof fn lemma_run_stops(tokens: Seq<XmlTokenView>, k: int)
    requires
        0 <= k <= tokens.len(),
        ttml_run(tokens.take(k)).progress != Progress::Reading,
    ensures
        ttml_run(tokens) == ttml_run(tokens.take(k)),
    decreases tokens.len() - k,
{
    if k == tokens.len() {
        assert(tokens.take(k) =~= tokens);
    } else {
        assert(tokens.take(k + 1).drop_last() =~= tokens.take(k));
        assert(tokens.take(k + 1).last() == tokens[k]);
        lemma_run_stops(tokens, k + 1);
    }
}

/// Reads a TTML document with `quick_xml` and gives the lyrics it holds: what
/// `ttml_lyrics` gives of the events that the reader reports for it (see
/// `xml_tokens_of`). Reading stops at the end of the document, at an error, or at a
/// text that cannot be unescaped.
pub fn parse_ttml(input: &str, source: Provider, attribution: &str, duration_ms: u32) -> (r: Option<
    Lyrics,
>)
    ensures
        match spec_ttml(xml_tokens_of(input@), source, attribution@, duration_ms) {
            Some(v) => r is Some && r->0@ == v,
            None => r is None,
        },
{
    let mut cursor = xml_reader(input);
    let ghost tokens = xml_tokens_of(input@);
    let mut s = fresh();
    let mut done = false;
    while !done && s.progress == Progress::Reading
        invariant
            cursor.input() == input@,
            tokens == xml_tokens_of(input@),
            0 < tokens.len() <= input.len() + 1,
            cursor.read() <= tokens.len(),
            done <==> cursor.read() == tokens.len(),
            s@ == ttml_run(tokens.take(cursor.read() as int)),
            s.ignored <= cursor.read(),
        decreases tokens.len() - cursor.read(),
    {
        let ghost k: int = cursor.read() as int;
        let token = next_xml_token(&mut cursor);
        proof {
            assert(tokens.take(k + 1).drop_last() =~= tokens.take(k));
            assert(tokens.take(k + 1).last() == token@);
        }
        done = match token {
            XmlToken::Eof => true,
            XmlToken::Error => true,
            _ => false,
        };
        s = step(s, &token);
    }
    proof {
        if done {
            assert(tokens.take(cursor.read() as int) =~= tokens);
        } else {
            lemma_run_stops(tokens, cursor.read() as int);
        }
    }
    finish(s, source, attribution, duration_ms)
}

/// What a TTML document gives: nothing when reading fails (an error, or a text that
/// cannot be unescaped) or when no `<p>` has text or timed words; else lyrics from
/// the given source and attribution, in the language of `<tt>`, with one line for
/// each such `<p>` in document order, each keeping its text, its start and its
/// words, and synced as those lines are.
pub proof fn law_ttml_outcome(
    tokens: Seq<XmlTokenView>,
    source: Provider,
    attribution: Seq<char>,
    duration_ms: u32,
)
    ensures
        ({
            let s = ttml_run(tokens);
            let r = spec_ttml(tokens, source, attribution, duration_ms);
            &&& r is None <==> (s.progress == Progress::Failed || s.lines.len() == 0)
            &&& r matches Some(l) ==> {
                &&& l.source == source
                &&& l.attribution == attribution
                &&& l.language == s.language
                &&& l.lines.len() == s.lines.len()
                &&& forall|i: int|
                    0 <= i < s.lines.len() ==> (#[trigger] l.lines[i]).text == s.lines[i].text
                        && l.lines[i].start_ms == s.lines[i].start_ms
                        && l.lines[i].words.len() == s.lines[i].words.len()
                &&& l.sync == spec_classify(s.lines)
            }
        }),
{
}

/// Inside a background or translation span nothing is read into the lyrics: while
/// such a span is open, a token changes neither the lines, the open line, the open
/// word nor the language.
pub proof fn law_skipped_spans_add_nothing(s: TtmlView, t: XmlTokenView)
    requires
        s.ignored > 0,
    ensures
        ttml_step(s, t).lines == s.lines,
        ttml_step(s, t).line == s.line,
        ttml_step(s, t).word == s.word,
        ttml_step(s, t).language == s.language,
{
}

/// A background or translation span opened inside a line is skipped from its start:
/// the lyrics read so far stay as they are and skipping begins.
pub proof fn law_skipped_span_opens(
    s: TtmlView,
    attributes: Seq<XmlAttributeView>,
)
    requires
        s.ignored == 0,
        s.line is Some,
        spec_attribute(attributes, role_name()) == Some(x_bg()) || spec_attribute(
            attributes,
            role_name(),
        ) == Some(x_translation()),
    ensures
        on_start(s, span_name(), attributes) == (TtmlView { ignored: 1, ..s }),
{
    assert(span_name() != tt_name());
    assert(span_name() != p_name());
}

} // verus!
