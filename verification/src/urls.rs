use crate::numbers::hex_char;
use crate::search::pairs_view;
use crate::text::{chars_of, spec_is_whitespace, is_whitespace, string_from_chars};
use url::Url;
use vstd::prelude::*;

verus! {

/// A URL that does not parse.
#[derive(Debug, Clone, Copy, PartialEq, Eq, Structural)]
pub struct InvalidUrl;

/// The URL that `url::Url::parse` makes of `base` once `query_pairs_mut` has appended
/// the pairs, form-encoded, to its query; `None` where `base` does not parse.
pub uninterp spec fn url_with_query_of(base: Seq<char>, pairs: Seq<(Seq<char>, Seq<char>)>) -> Option<
    Seq<char>,
>;

/// `Url::parse(base)`, then `query_pairs_mut().extend_pairs(pairs)`, as a string. The
/// contract names the result `url_with_query_of(base, pairs)`: parsing and encoding
/// depend on the text alone.
#[verifier::external_body]
fn url_with_query(base: &str, pairs: &Vec<(String, String)>) -> (r: Option<String>)
    ensures
        match url_with_query_of(base@, pairs_view(pairs@)) {
            Some(u) => r is Some && r->0@ == u,
            None => r is None,
        },
{
    let mut url = Url::parse(base).ok()?;
    url.query_pairs_mut().extend_pairs(pairs.iter());
    Some(url.into())
}

/// The pairs that `url::Url::query_pairs` decodes from the query of a URL, in order;
/// `None` where the URL does not parse.
pub uninterp spec fn url_query_pairs_of(url: Seq<char>) -> Option<Seq<(Seq<char>, Seq<char>)>>;

/// `Url::parse(url)`, then `query_pairs`, each pair as owned strings.
#[verifier::external_body]
fn url_query_pairs(url: &str) -> (r: Option<Vec<(String, String)>>)
    ensures
        match url_query_pairs_of(url@) {
            Some(p) => r is Some && pairs_view(r->0@) == p,
            None => r is None,
        },
{
    let url = Url::parse(url).ok()?;
    Some(url.query_pairs().map(|(k, v)| (k.into_owned(), v.into_owned())).collect())
}

/// How JSON writes one character of a string: `"` and `\` behind a backslash, the
/// control characters backspace, tab, line feed, form feed and carriage return as
/// `\b` `\t` `\n` `\f` `\r`, the other characters below U+0020 as `\u00` and two
/// lower-case hexadecimal digits, and every other character as itself.
pub open spec fn json_char(c: char) -> Seq<char> {
    let v = c as u32;
    if c == '"' {
        seq!['\\', '"']
    } else if c == '\\' {
        seq!['\\', '\\']
    } else if v == 8 {
        seq!['\\', 'b']
    } else if v == 9 {
        seq!['\\', 't']
    } else if v == 10 {
        seq!['\\', 'n']
    } else if v == 12 {
        seq!['\\', 'f']
    } else if v == 13 {
        seq!['\\', 'r']
    } else if v < 0x20 {
        seq!['\\', 'u', '0', '0', hex_char((v / 16) as nat), hex_char((v % 16) as nat)]
    } else {
        seq![c]
    }
}

/// The characters of a string as JSON writes them inside its quotes.
pub open spec fn json_escaped(s: Seq<char>) -> Seq<char>
    decreases s.len(),
{
    if s.len() == 0 {
        seq![]
    } else {
        json_escaped(s.drop_last()) + json_char(s.last())
    }
}

/// A string as JSON text: quoted, its characters escaped (see `json_char`).
pub open spec fn json_quoted(s: Seq<char>) -> Seq<char> {
    seq!['"'] + json_escaped(s) + seq!['"']
}

/// `serde_json::to_string` of a string, which writes it as `json_quoted` describes
/// (serde_json's `format_escaped_str` with its `ESCAPE` table) and does not fail on
/// one.
#[verifier::external_body]
pub(crate) fn json_string(text: &str) -> (r: Option<String>)
    ensures
        r is Some && r->0@ == json_quoted(text@),
{
    serde_json::to_string(text).ok()
}

/// A URL with a query of `pairs`.
pub fn with_query(base: &str, pairs: &Vec<(String, String)>) -> (r: Result<String, InvalidUrl>)
    ensures
        match url_with_query_of(base@, pairs_view(pairs@)) {
            Some(u) => r is Ok && r->Ok_0@ == u,
            None => r is Err,
        },
{
    match url_with_query(base, pairs) {
        Some(u) => Ok(u),
        None => Err(InvalidUrl),
    }
}

/// The value of the first pair named `key`.
pub open spec fn first_value(pairs: Seq<(Seq<char>, Seq<char>)>, key: Seq<char>) -> Option<Seq<char>>
    decreases pairs.len(),
{
    if pairs.len() == 0 {
        None
    } else if pairs[0].0 == key {
        Some(pairs[0].1)
    } else {
        first_value(pairs.drop_first(), key)
    }
}

/// The value of the first pair named `key`, among pairs already decoded.
pub fn value_of(pairs: &Vec<(String, String)>, key: &str) -> (r: Option<String>)
    ensures
        match first_value(pairs_view(pairs@), key@) {
            Some(v) => r is Some && r->0@ == v,
            None => r is None,
        },
{
    let ghost all = pairs_view(pairs@);
    let n = pairs.len();
    assert(all.skip(0) =~= all);
    for i in 0..n
        invariant
            n == pairs@.len(),
            all == pairs_view(pairs@),
            first_value(all, key@) == first_value(all.skip(i as int), key@),
    {
        assert(all.skip(i as int).drop_first() =~= all.skip(i + 1));
        assert(all.skip(i as int)[0] == all[i as int]);
        if crate::text::same_text(pairs[i].0.as_str(), key) {
            return Some(pairs[i].1.clone());
        }
    }
    None
}

/// The words of a text: its runs of characters other than whitespace, in order.
pub open spec fn words_state(s: Seq<char>) -> (Seq<Seq<char>>, bool)
    decreases s.len(),
{
    if s.len() == 0 {
        (Seq::empty(), false)
    } else {
        let (ws, in_word) = words_state(s.drop_last());
        let c = s.last();
        if spec_is_whitespace(c) {
            (ws, false)
        } else if in_word && ws.len() > 0 {
            (ws.update(ws.len() - 1, ws.last().push(c)), true)
        } else {
            (ws.push(seq![c]), true)
        }
    }
}

pub open spec fn words(s: Seq<char>) -> Seq<Seq<char>> {
    words_state(s).0
}

fn second_word(line: &str) -> (r: Option<Vec<char>>)
    ensures
        match r {
            Some(w) => words(line@).len() >= 2 && w@ == words(line@)[1],
            None => words(line@).len() < 2,
        },
{
    let s = chars_of(line);
    let n = s.len();
    let mut ws: Vec<Vec<char>> = Vec::new();
    let mut in_word = false;
    for i in 0..n
        invariant
            n == s@.len(),
            s@ == line@,
            ws@.len() <= i,
            ws@.map_values(|w: Vec<char>| w@) == words_state(s@.take(i as int)).0,
            in_word == words_state(s@.take(i as int)).1,
            in_word ==> ws@.len() > 0,
    {
        assert(s@.take(i + 1).drop_last() =~= s@.take(i as int));
        let c = s[i];
        assert(c == s@.take(i + 1).last());
        if is_whitespace(c) {
            in_word = false;
        } else if in_word && ws.len() > 0 {
            let last = ws.len() - 1;
            let mut w = ws.remove(last);
            w.push(c);
            let ghost before = words_state(s@.take(i as int)).0;
            ws.push(w);
            assert(ws@.map_values(|w: Vec<char>| w@) =~= before.update(
                before.len() - 1,
                before.last().push(c),
            ));
        } else {
            let mut w: Vec<char> = Vec::new();
            w.push(c);
            let ghost before = ws@.map_values(|w: Vec<char>| w@);
            ws.push(w);
            assert(ws@.map_values(|w: Vec<char>| w@) =~= before.push(seq![c]));
            in_word = true;
        }
    }
    assert(s@.take(n as int) =~= s@);
    if ws.len() >= 2 {
        let w = ws.remove(1);
        Some(w)
    } else {
        None
    }
}

/// What the browser's request to the login callback carries: the code and the state
/// from the query of the path (the request line's second word, read against
/// `http://localhost`), when it has both.
pub open spec fn spec_callback(request_line: Seq<char>) -> Option<(Seq<char>, Seq<char>)> {
    let ws = words(request_line);
    if ws.len() < 2 {
        None
    } else {
        match url_query_pairs_of("http://localhost"@ + ws[1]) {
            None => None,
            Some(pairs) => match (first_value(pairs, "code"@), first_value(pairs, "state"@)) {
                (Some(code), Some(state)) => Some((code, state)),
                _ => None,
            },
        }
    }
}

/// The code and the state that the login callback's request line carries.
pub fn callback(request_line: &str) -> (r: Option<(String, String)>)
    ensures
        match (spec_callback(request_line@), r) {
            (Some((code, state)), Some((c, s))) => c@ == code && s@ == state,
            (None, None) => true,
            _ => false,
        },
{
    let path = match second_word(request_line) {
        Some(p) => p,
        None => return None,
    };
    let mut full = chars_of("http://localhost");
    let ghost head = full@;
    let mut rest = path;
    let ghost tail = rest@;
    full.append(&mut rest);
    assert(full@ =~= head + tail);
    let url = string_from_chars(full.as_slice());
    let pairs = match url_query_pairs(url.as_str()) {
        Some(p) => p,
        None => return None,
    };
    match (value_of(&pairs, "code"), value_of(&pairs, "state")) {
        (Some(code), Some(state)) => Some((code, state)),
        _ => None,
    }
}

} // verus!
