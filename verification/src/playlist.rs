use crate::lyrics::opt_view;
use crate::model::PlaylistRef;
use crate::numbers::{hex_chars, spec_hex, spec_parse_u32};
use crate::text::{chars_of, slice_chars, spec_is_whitespace, string_from_chars, trim, trim_chars, is_whitespace};
use crate::timing::{index_of, index_of_char, lemma_index_of_bound};
use vstd::prelude::*;

verus! {

/// Whether `v` is a Unicode scalar value (what `char::from_u32` accepts).
pub open spec fn is_scalar(v: u32) -> bool {
    v < 0xD800 || (0xE000 <= v && v <= 0x10FFFF)
}

/// `char::from_u32` of std: the character with that code point, when it is one.
#[verifier::external_body]
fn char_from_u32(v: u32) -> (r: Option<char>)
    ensures
        is_scalar(v) ==> r == Some(v as char),
        !is_scalar(v) ==> r is None,
{
    char::from_u32(v)
}

pub open spec fn hex_digit_value(c: char) -> Option<nat> {
    if '0' <= c <= '9' {
        Some((c as u32 - '0' as u32) as nat)
    } else if 'a' <= c <= 'f' {
        Some((c as u32 - 'a' as u32 + 10) as nat)
    } else if 'A' <= c <= 'F' {
        Some((c as u32 - 'A' as u32 + 10) as nat)
    } else {
        None
    }
}

/// The number that hexadecimal digits spell, if they are all hexadecimal digits.
pub open spec fn hex_value(s: Seq<char>) -> Option<nat>
    decreases s.len(),
{
    if s.len() == 0 {
        Some(0)
    } else {
        match (hex_value(s.drop_last()), hex_digit_value(s.last())) {
            (Some(v), Some(d)) => Some(v * 16 + d),
            _ => None,
        }
    }
}

/// `u32::from_str_radix(s, 16)`: an optional `'+'`, one or more hexadecimal digits,
/// and a value that fits.
pub open spec fn spec_parse_hex_u32(s: Seq<char>) -> Option<u32> {
    let body = if s.len() > 0 && s[0] == '+' {
        s.drop_first()
    } else {
        s
    };
    if body.len() == 0 {
        None
    } else {
        match hex_value(body) {
            Some(v) => if v <= u32::MAX {
                Some(v as u32)
            } else {
                None
            },
            None => None,
        }
    }
}

proof fn lemma_hex_none(s: Seq<char>, k: int)
    requires
        0 <= k <= s.len(),
        hex_value(s.take(k)) is None,
    ensures
        hex_value(s) is None,
    decreases s.len() - k,
{
    if k < s.len() {
        assert(s.take(k + 1).drop_last() =~= s.take(k));
        lemma_hex_none(s, k + 1);
    } else {
        assert(s.take(k) =~= s);
    }
}

proof fn lemma_hex_big(s: Seq<char>, k: int)
    requires
        0 <= k <= s.len(),
        hex_value(s.take(k)) is Some,
        hex_value(s.take(k))->0 > u32::MAX,
    ensures
        hex_value(s) is None || hex_value(s)->0 > u32::MAX,
    decreases s.len() - k,
{
    if k < s.len() {
        assert(s.take(k + 1).drop_last() =~= s.take(k));
        if hex_value(s.take(k + 1)) is None {
            lemma_hex_none(s, k + 1);
        } else {
            lemma_hex_big(s, k + 1);
        }
    } else {
        assert(s.take(k) =~= s);
    }
}

fn parse_hex_u32(s: &[char]) -> (r: Option<u32>)
    ensures
        r == spec_parse_hex_u32(s@),
{
    let from: usize = if s.len() > 0 && s[0] == '+' {
        1
    } else {
        0
    };
    let body = slice_chars(s, from, s.len());
    proof {
        if from == 1 {
            assert(body@ =~= s@.drop_first());
        } else {
            assert(body@ =~= s@);
        }
    }
    if body.len() == 0 {
        return None;
    }
    let ghost expected = spec_parse_hex_u32(s@);
    assert(expected == match hex_value(body@) {
        Some(w) => if w <= u32::MAX { Some(w as u32) } else { None },
        None => None,
    });
    let mut v: u64 = 0;
    let n = body.len();
    for i in 0..n
        invariant
            n == body@.len(),
            expected == spec_parse_hex_u32(s@),
            expected == match hex_value(body@) {
                Some(w) => if w <= u32::MAX { Some(w as u32) } else { None },
                None => None,
            },
            hex_value(body@.take(i as int)) == Some(v as nat),
            v <= u32::MAX,
    {
        proof {
            assert(body@.take(i + 1).drop_last() =~= body@.take(i as int));
            assert(body@.take(i + 1).last() == body@[i as int]);
        }
        let c = body[i];
        assert(c == body@[i as int]);
        let d: u64 = if '0' <= c && c <= '9' {
            (c as u32 - '0' as u32) as u64
        } else if 'a' <= c && c <= 'f' {
            (c as u32 - 'a' as u32 + 10) as u64
        } else if 'A' <= c && c <= 'F' {
            (c as u32 - 'A' as u32 + 10) as u64
        } else {
            proof {
                lemma_hex_none(body@, i + 1);
            }
            return None;
        };
        v = v * 16 + d;
        if v > 0xffff_ffffu64 {
            proof {
                lemma_hex_big(body@, i + 1);
            }
            return None;
        }
    }
    assert(body@.take(n as int) =~= body@);
    Some(v as u32)
}

/// The character an HTML entity name (without `&` and `;`) stands for: a few named
/// ones, and numeric ones in decimal (`#39`) or hexadecimal (`#x27`).
pub open spec fn spec_decode_entity(e: Seq<char>) -> Option<char> {
    if e == "amp"@ {
        Some('&')
    } else if e == "apos"@ || e == "#39"@ {
        Some('\'')
    } else if e == "gt"@ {
        Some('>')
    } else if e == "hellip"@ {
        Some('\u{2026}')
    } else if e == "lt"@ {
        Some('<')
    } else if e == "nbsp"@ {
        Some(' ')
    } else if e == "quot"@ {
        Some('"')
    } else if e.len() >= 2 && e[0] == '#' && (e[1] == 'x' || e[1] == 'X') {
        match spec_parse_hex_u32(e.skip(2)) {
            Some(v) => if is_scalar(v) {
                Some(v as char)
            } else {
                None
            },
            None => None,
        }
    } else if e.len() >= 1 && e[0] == '#' {
        match spec_parse_u32(e.skip(1)) {
            Some(v) => if is_scalar(v) {
                Some(v as char)
            } else {
                None
            },
            None => None,
        }
    } else {
        None
    }
}

fn is_name(e: &[char], name: &str) -> (r: bool)
    ensures
        r == (e@ == name@),
{
    let n = chars_of(name);
    if e.len() != n.len() {
        return false;
    }
    let m = e.len();
    for i in 0..m
        invariant
            n@ == name@,
            m == e@.len(),
            m == n@.len(),
            forall|k: int| 0 <= k < i ==> e@[k] == n@[k],
    {
        if e[i] != n[i] {
            return false;
        }
    }
    assert(e@ =~= n@);
    true
}

/// The character an HTML entity name stands for, if it is one that is decoded.
fn entity_char(entity: &[char]) -> (r: Option<char>)
    ensures
        r == spec_decode_entity(entity@),
{
    if is_name(entity, "amp") {
        return Some('&');
    }
    if is_name(entity, "apos") || is_name(entity, "#39") {
        return Some('\'');
    }
    if is_name(entity, "gt") {
        return Some('>');
    }
    if is_name(entity, "hellip") {
        return Some('\u{2026}');
    }
    if is_name(entity, "lt") {
        return Some('<');
    }
    if is_name(entity, "nbsp") {
        return Some(' ');
    }
    if is_name(entity, "quot") {
        return Some('"');
    }
    let n = entity.len();
    if n >= 2 && entity[0] == '#' && (entity[1] == 'x' || entity[1] == 'X') {
        let digits = slice_chars(entity, 2, n);
        assert(digits@ =~= entity@.skip(2));
        return match parse_hex_u32(digits.as_slice()) {
            Some(v) => char_from_u32(v),
            None => None,
        };
    }
    if n >= 1 && entity[0] == '#' {
        let digits = slice_chars(entity, 1, n);
        assert(digits@ =~= entity@.skip(1));
        return match crate::numbers::parse_u32(digits.as_slice()) {
            Some(v) => char_from_u32(v),
            None => None,
        };
    }
    None
}

/// The number of bytes a character takes in UTF-8.
pub open spec fn utf8_width(c: char) -> nat {
    if (c as u32) < 0x80 {
        1
    } else if (c as u32) < 0x800 {
        2
    } else if (c as u32) < 0x10000 {
        3
    } else {
        4
    }
}

pub open spec fn utf8_len(s: Seq<char>) -> nat
    decreases s.len(),
{
    if s.len() == 0 {
        0
    } else {
        utf8_len(s.drop_last()) + utf8_width(s.last())
    }
}

/// `text` with its HTML entities decoded: an `&` followed within 8 bytes by a `;`
/// is an entity; a decoded one becomes its character, any other stays as written,
/// and an `&` without such a `;` stays.
pub open spec fn spec_decode_entities(s: Seq<char>) -> Seq<char>
    decreases s.len(),
{
    match index_of(s, '&') {
        None => s,
        Some(i) => {
            proof {
                lemma_index_of_bound(s, '&');
                lemma_index_of_bound(s.skip(i as int + 1), ';');
            }
            let entity = s.skip(i as int + 1);
            let head = s.take(i as int);
            match index_of(entity, ';') {
                Some(e) => if utf8_len(entity.take(e as int)) <= 8 {
                    let name = entity.take(e as int);
                    head + match spec_decode_entity(name) {
                        Some(c) => seq![c],
                        None => seq!['&'] + name + seq![';'],
                    } + spec_decode_entities(entity.skip(e as int + 1))
                } else {
                    head + seq!['&'] + spec_decode_entities(entity)
                },
                None => head + seq!['&'] + spec_decode_entities(entity),
            }
        },
    }
}

fn utf8_width_of(c: char) -> (r: usize)
    ensures
        r == utf8_width(c),
{
    let u = c as u32;
    if u < 0x80 {
        1
    } else if u < 0x800 {
        2
    } else if u < 0x10000 {
        3
    } else {
        4
    }
}

fn decoded_chars(text: &[char]) -> (r: Vec<char>)
    ensures
        r@ == spec_decode_entities(text@),
    decreases text@.len(),
{
    let amp = match index_of_char(text, '&') {
        Some(i) => i,
        None => {
            assert(spec_decode_entities(text@) == text@);
            return slice_chars(text, 0, text.len());
        },
    };
    let total = text.len();
    assert(amp < total);
    let mut out = slice_chars(text, 0, amp);
    assert(out@ =~= text@.take(amp as int));
    let entity = slice_chars(text, amp + 1, text.len());
    assert(entity@ =~= text@.skip(amp + 1));
    let semi = index_of_char(entity.as_slice(), ';');
    let mut width: usize = 0;
    let close = match semi {
        Some(e) => {
            let mut k: usize = 0;
            let mut fits = true;
            while k < e && fits
                invariant
                    k <= e < entity@.len(),
                    fits ==> width == utf8_len(entity@.take(k as int)),
                    fits ==> width <= 8,
                    !fits ==> utf8_len(entity@.take(e as int)) > 8,
                decreases e - k,
            {
                proof {
                    assert(entity@.take(k + 1).drop_last() =~= entity@.take(k as int));
                }
                width = width + utf8_width_of(entity[k]);
                k += 1;
                if width > 8 {
                    fits = false;
                    proof {
                        lemma_utf8_len_grows(entity@.take(e as int), k as int);
                        assert(entity@.take(e as int).take(k as int) =~= entity@.take(k as int));
                    }
                }
            }
            if fits {
                Some(e)
            } else {
                None
            }
        },
        None => None,
    };
    match close {
        Some(e) => {
            let name = slice_chars(entity.as_slice(), 0, e);
            assert(name@ =~= entity@.take(e as int));
            match entity_char(name.as_slice()) {
                Some(c) => out.push(c),
                None => {
                    out.push('&');
                    let mut j: usize = 0;
                    let ghost base = out@;
                    while j < name.len()
                        invariant
                            j <= name@.len(),
                            out@ == base + name@.take(j as int),
                        decreases name@.len() - j,
                    {
                        out.push(name[j]);
                        j += 1;
                        assert(out@ =~= base + name@.take(j as int));
                    }
                    assert(name@.take(name@.len() as int) =~= name@);
                    out.push(';');
                },
            }
            let rest = slice_chars(entity.as_slice(), e + 1, entity.len());
            assert(rest@ =~= entity@.skip(e + 1));
            let tail = decoded_chars(rest.as_slice());
            let ghost before = out@;
            out.append(&mut tail.clone());
            assert(out@ =~= spec_decode_entities(text@)) by {
                assert(out@ =~= before + tail@);
            }
            out
        },
        None => {
            out.push('&');
            let tail = decoded_chars(entity.as_slice());
            let ghost before = out@;
            out.append(&mut tail.clone());
            assert(out@ =~= before + tail@);
            out
        },
    }
}

/// The character an HTML entity name (without `&` and `;`) stands for, if it is one
/// that is decoded.
pub fn decode_entity(entity: &str) -> (r: Option<char>)
    ensures
        r == spec_decode_entity(entity@),
{
    let chars = chars_of(entity);
    entity_char(chars.as_slice())
}

/// `text` with its HTML entities decoded.
pub fn decode_entities(text: &str) -> (r: String)
    ensures
        r@ == spec_decode_entities(text@),
{
    let chars = chars_of(text);
    let decoded = decoded_chars(chars.as_slice());
    string_from_chars(decoded.as_slice())
}

proof fn lemma_utf8_len_grows(s: Seq<char>, k: int)
    requires
        0 <= k <= s.len(),
    ensures
        utf8_len(s.take(k)) <= utf8_len(s),
    decreases s.len() - k,
{
    if k < s.len() {
        lemma_utf8_len_grows(s.drop_last(), if k <= s.len() - 1 { k } else { s.len() - 1 });
        assert(s.drop_last().take(k) =~= s.take(k));
    } else {
        assert(s.take(k) =~= s);
    }
}


/// The code of a character with ASCII capitals taken to lower case.
pub open spec fn lower_code(c: char) -> u32 {
    if 'A' <= c && c <= 'Z' {
        (c as u32 + 32) as u32
    } else {
        c as u32
    }
}

pub open spec fn lower_codes(s: Seq<char>) -> Seq<u32> {
    Seq::new(s.len(), |i: int| lower_code(s[i]))
}

pub open spec fn codes(s: Seq<char>) -> Seq<u32> {
    Seq::new(s.len(), |i: int| s[i] as u32)
}

/// A tag that ends a line: `br`, `br/` or `/p`, in any ASCII case, with surrounding
/// whitespace ignored.
pub open spec fn is_break_tag(tag: Seq<char>) -> bool {
    let t = lower_codes(trim(tag));
    t == codes("br"@) || t == codes("br/"@) || t == codes("/p"@)
}

/// Reading HTML character by character: the text outside tags, the tag being read,
/// and whether a tag is open. A closing break tag leaves a space in the text.
pub open spec fn strip_state(s: Seq<char>) -> (Seq<char>, Seq<char>, bool)
    decreases s.len(),
{
    if s.len() == 0 {
        (Seq::empty(), Seq::empty(), false)
    } else {
        let (text, tag, in_tag) = strip_state(s.drop_last());
        let c = s.last();
        if c == '<' && !in_tag {
            (text, Seq::empty(), true)
        } else if c == '>' && in_tag {
            (if is_break_tag(tag) {
                text.push(' ')
            } else {
                text
            }, tag, false)
        } else if in_tag {
            (text, tag.push(c), true)
        } else {
            (text.push(c), tag, false)
        }
    }
}

/// The words of a text (its runs of non-whitespace) joined by single spaces, read
/// character by character: the output so far, and whether whitespace came after it.
pub open spec fn collapse_state(s: Seq<char>) -> (Seq<char>, bool)
    decreases s.len(),
{
    if s.len() == 0 {
        (Seq::empty(), false)
    } else {
        let (out, gap) = collapse_state(s.drop_last());
        let c = s.last();
        if spec_is_whitespace(c) {
            (out, true)
        } else if gap && out.len() > 0 {
            (out.push(' ').push(c), false)
        } else {
            (out.push(c), false)
        }
    }
}

pub open spec fn collapse_whitespace(s: Seq<char>) -> Seq<char> {
    collapse_state(s).0
}

/// A playlist description as plain text: tags removed (break tags become spaces),
/// entities decoded, and whitespace collapsed to single spaces between words.
pub open spec fn spec_description_text(html: Seq<char>) -> Seq<char> {
    collapse_whitespace(spec_decode_entities(strip_state(html).0))
}

fn lower_matches(t: &[char], name: &str) -> (r: bool)
    ensures
        r == (lower_codes(t@) == codes(name@)),
{
    let n = chars_of(name);
    if t.len() != n.len() {
        proof {
            if lower_codes(t@) == codes(name@) {
                assert(lower_codes(t@).len() == codes(name@).len());
            }
        }
        return false;
    }
    let m = t.len();
    for i in 0..m
        invariant
            n@ == name@,
            m == t@.len(),
            m == n@.len(),
            forall|k: int| 0 <= k < i ==> lower_code(t@[k]) == n@[k] as u32,
    {
        let c = t[i];
        let d = n[i];
        assert(c == t@[i as int] && d == n@[i as int]);
        let code: u32 = if 'A' <= c && c <= 'Z' {
            c as u32 + 32
        } else {
            c as u32
        };
        if code != d as u32 {
            proof {
                assert(lower_codes(t@)[i as int] != codes(name@)[i as int]);
            }
            return false;
        }
    }
    assert(lower_codes(t@) =~= codes(name@));
    true
}

fn break_tag(tag: &[char]) -> (r: bool)
    ensures
        r == is_break_tag(tag@),
{
    let t = trim_chars(tag);
    lower_matches(t.as_slice(), "br") || lower_matches(t.as_slice(), "br/") || lower_matches(
        t.as_slice(),
        "/p",
    )
}

fn strip_html(html: &[char]) -> (r: Vec<char>)
    ensures
        r@ == strip_state(html@).0,
{
    let mut text: Vec<char> = Vec::new();
    let mut tag: Vec<char> = Vec::new();
    let mut in_tag = false;
    let n = html.len();
    for i in 0..n
        invariant
            n == html@.len(),
            (text@, tag@, in_tag) == strip_state(html@.take(i as int)),
    {
        proof {
            assert(html@.take(i + 1).drop_last() =~= html@.take(i as int));
        }
        let c = html[i];
        assert(c == html@.take(i + 1).last());
        if c == '<' && !in_tag {
            in_tag = true;
            tag.clear();
        } else if c == '>' && in_tag {
            if break_tag(tag.as_slice()) {
                text.push(' ');
            }
            in_tag = false;
        } else if in_tag {
            tag.push(c);
        } else {
            text.push(c);
        }
    }
    assert(html@.take(n as int) =~= html@);
    text
}

fn collapse(s: &[char]) -> (r: Vec<char>)
    ensures
        r@ == collapse_whitespace(s@),
{
    let mut out: Vec<char> = Vec::new();
    let mut gap = false;
    let n = s.len();
    for i in 0..n
        invariant
            n == s@.len(),
            (out@, gap) == collapse_state(s@.take(i as int)),
    {
        proof {
            assert(s@.take(i + 1).drop_last() =~= s@.take(i as int));
        }
        let c = s[i];
        assert(c == s@.take(i + 1).last());
        if is_whitespace(c) {
            gap = true;
        } else {
            if gap && out.len() > 0 {
                out.push(' ');
            }
            out.push(c);
            gap = false;
        }
    }
    assert(s@.take(n as int) =~= s@);
    out
}

/// A playlist's HTML description as plain text.
pub fn description_text(html: &str) -> (r: String)
    ensures
        r@ == spec_description_text(html@),
{
    let chars = chars_of(html);
    let text = strip_html(chars.as_slice());
    let decoded = decoded_chars(text.as_slice());
    let words = collapse(decoded.as_slice());
    string_from_chars(words.as_slice())
}


/// One size in which a playlist's picture is offered.
#[derive(Debug, Clone)]
pub struct PictureSize {
    pub target_name: String,
    pub url: String,
}

/// The attributes of a playlist that a library listing carries.
#[derive(Debug, Clone)]
pub struct ListAttributes {
    pub name: String,
    pub picture: Vec<u8>,
    pub picture_size: Vec<PictureSize>,
}

/// What a library listing says of one of its playlists.
#[derive(Debug, Clone)]
pub struct RootlistMeta {
    pub owner_username: String,
    pub length: i32,
    pub attributes: ListAttributes,
}

/// Bytes as lowercase hexadecimal, two digits each.
pub open spec fn hex_bytes(bytes: Seq<u8>) -> Seq<char>
    decreases bytes.len(),
{
    if bytes.len() == 0 {
        seq![]
    } else {
        hex_bytes(bytes.drop_last()) + spec_hex(bytes.last() as nat, 2)
    }
}

/// Whether the first size named `default` stands at `k`.
pub open spec fn first_default(sizes: Seq<PictureSize>, k: int) -> bool {
    &&& 0 <= k < sizes.len()
    &&& sizes[k].target_name@ == "default"@
    &&& forall|j: int| 0 <= j < k ==> sizes[j].target_name@ != "default"@
}

/// A playlist's picture: its raw id in hexadecimal where it has one, else the URL of
/// the first size named `default`, else that of the first size.
pub open spec fn spec_picture(attributes: ListAttributes) -> Option<Seq<char>> {
    let sizes = attributes.picture_size@;
    if attributes.picture@.len() > 0 {
        Some(hex_bytes(attributes.picture@))
    } else if exists|k: int| first_default(sizes, k) {
        Some(sizes[choose|k: int| first_default(sizes, k)].url@)
    } else if sizes.len() > 0 {
        Some(sizes[0].url@)
    } else {
        None
    }
}

/// The picture of a playlist, from its attributes.
pub fn picture(attributes: &ListAttributes) -> (r: Option<String>)
    ensures
        opt_view(r) == spec_picture(*attributes),
{
    let raw = &attributes.picture;
    if raw.len() > 0 {
        let mut out: Vec<char> = Vec::new();
        let n = raw.len();
        for i in 0..n
            invariant
                n == raw@.len(),
                out@ == hex_bytes(raw@.take(i as int)),
        {
            proof {
                assert(raw@.take(i + 1).drop_last() =~= raw@.take(i as int));
            }
            let digits = hex_chars(raw[i] as u64, 2);
            out.append(&mut digits.clone());
        }
        assert(raw@.take(n as int) =~= raw@);
        return Some(string_from_chars(out.as_slice()));
    }
    let sizes = &attributes.picture_size;
    let n = sizes.len();
    for i in 0..n
        invariant
            n == sizes@.len(),
            sizes@ == attributes.picture_size@,
            attributes.picture@.len() == 0,
            forall|j: int| 0 <= j < i ==> sizes@[j].target_name@ != "default"@,
    {
        let target = chars_of(sizes[i].target_name.as_str());
        if is_name(target.as_slice(), "default") {
            proof {
                assert(first_default(sizes@, i as int));
                let k = choose|k: int| first_default(sizes@, k);
                assert(k == i);
            }
            return Some(sizes[i].url.clone());
        }
    }
    proof {
        assert(!exists|k: int| first_default(sizes@, k));
    }
    if n > 0 {
        Some(sizes[0].url.clone())
    } else {
        None
    }
}

/// The entry of the library for a playlist, from its URI and what the listing says
/// of it.
pub open spec fn spec_rootlist_entry(uri: Seq<char>, meta: Option<RootlistMeta>) -> (
    Seq<char>,
    Seq<char>,
    Seq<char>,
    nat,
    Option<Seq<char>>,
) {
    match meta {
        Some(m) => (
            uri,
            m.attributes.name@,
            m.owner_username@,
            if m.length < 0 {
                0
            } else {
                m.length as nat
            },
            spec_picture(m.attributes),
        ),
        None => (uri, Seq::empty(), Seq::empty(), 0, None),
    }
}

pub open spec fn playlist_ref_view(r: PlaylistRef) -> (
    Seq<char>,
    Seq<char>,
    Seq<char>,
    nat,
    Option<Seq<char>>,
) {
    (r.uri@, r.name@, r.owner@, r.length as nat, opt_view(r.picture))
}

/// The library's entry for one playlist of a listing.
pub fn rootlist_entry(uri: String, meta: Option<&RootlistMeta>) -> (r: PlaylistRef)
    ensures
        playlist_ref_view(r) == spec_rootlist_entry(
            uri@,
            match meta {
                Some(m) => Some(*m),
                None => None,
            },
        ),
{
    match meta {
        Some(m) => PlaylistRef {
            uri,
            name: m.attributes.name.clone(),
            owner: m.owner_username.clone(),
            length: if m.length < 0 {
                0
            } else {
                m.length as usize
            },
            picture: picture(&m.attributes),
        },
        None => PlaylistRef { uri, name: String::new(), owner: String::new(), length: 0, picture: None },
    }
}

/// How many entries one page of the library listing asks for.
pub const ROOTLIST_PAGE: usize = 120;

/// Where the next page of the library listing starts, after a page of `count`
/// entries that started at `from`, in a listing of `total` entries; `None` once the
/// listing is read.
pub fn next_rootlist_page(from: usize, count: usize, total: i32) -> (r: Option<usize>)
    requires
        from + count <= usize::MAX,
    ensures
        r == (if count < ROOTLIST_PAGE || from + count >= (if total < 0 {
            0
        } else {
            total as int
        }) {
            None::<usize>
        } else {
            Some((from + count) as usize)
        }),
{
    let next = from + count;
    let known: usize = if total < 0 {
        0
    } else {
        total as usize
    };
    if count < ROOTLIST_PAGE || next >= known {
        None
    } else {
        Some(next)
    }
}


/// Whitespace stands only as single spaces between other characters: none at the
/// ends, none doubled, no other kind.
pub open spec fn is_collapsed(s: Seq<char>) -> bool {
    forall|i: int|
        0 <= i < s.len() && spec_is_whitespace(#[trigger] s[i]) ==> s[i] == ' ' && 0 < i && i + 1
            < s.len() && !spec_is_whitespace(s[i - 1]) && !spec_is_whitespace(s[i + 1])
}

/// The characters of a text other than whitespace, in order.
pub open spec fn visible(s: Seq<char>) -> Seq<char>
    decreases s.len(),
{
    if s.len() == 0 {
        Seq::empty()
    } else if spec_is_whitespace(s.last()) {
        visible(s.drop_last())
    } else {
        visible(s.drop_last()).push(s.last())
    }
}

proof fn lemma_collapse_state(s: Seq<char>)
    ensures
        is_collapsed(collapse_state(s).0),
        visible(collapse_state(s).0) == visible(s),
    decreases s.len(),
{
    if s.len() > 0 {
        let init = s.drop_last();
        lemma_collapse_state(init);
        let (out, gap) = collapse_state(init);
        let c = s.last();
        if spec_is_whitespace(c) {
        } else if gap && out.len() > 0 {
            let spaced = out.push(' ');
            let next = spaced.push(c);
            assert(spaced.drop_last() =~= out);
            assert(next.drop_last() =~= spaced);
            assert(spec_is_whitespace(' '));
            assert(visible(spaced) == visible(out));
            assert(visible(next) == visible(out).push(c));
            assert(!spec_is_whitespace(out.last())) by {
                if spec_is_whitespace(out.last()) {
                    assert(spec_is_whitespace(out[out.len() - 1]));
                }
            }
            assert forall|i: int| 0 <= i < next.len() && spec_is_whitespace(#[trigger] next[i]) implies next[i]
                == ' ' && 0 < i && i + 1 < next.len() && !spec_is_whitespace(next[i - 1])
                && !spec_is_whitespace(next[i + 1]) by {
                if i < out.len() {
                    assert(next[i] == out[i]);
                    assert(spec_is_whitespace(out[i]));
                    assert(next[i + 1] == out[i + 1] || i + 1 == out.len());
                    if i + 1 < out.len() {
                        assert(next[i + 1] == out[i + 1]);
                    }
                    assert(next[i - 1] == out[i - 1]);
                }
            }
        } else {
            let next = out.push(c);
            assert(next.drop_last() =~= out);
            assert(visible(next) == visible(out).push(c));
            assert forall|i: int| 0 <= i < next.len() && spec_is_whitespace(#[trigger] next[i]) implies next[i]
                == ' ' && 0 < i && i + 1 < next.len() && !spec_is_whitespace(next[i - 1])
                && !spec_is_whitespace(next[i + 1]) by {
                if i < out.len() {
                    assert(next[i] == out[i]);
                    assert(spec_is_whitespace(out[i]));
                    if i + 1 < out.len() {
                        assert(next[i + 1] == out[i + 1]);
                    }
                    assert(next[i - 1] == out[i - 1]);
                }
            }
        }
    }
}

/// Collapsing whitespace keeps every other character, in order, and leaves only
/// single spaces between words.
pub proof fn law_collapse_whitespace(s: Seq<char>)
    ensures
        is_collapsed(collapse_whitespace(s)),
        visible(collapse_whitespace(s)) == visible(s),
{
    lemma_collapse_state(s);
}

/// A playlist description as plain text has no whitespace at its ends, none doubled
/// and none but spaces.
pub proof fn law_description_is_collapsed(html: Seq<char>)
    ensures
        is_collapsed(spec_description_text(html)),
{
    lemma_collapse_state(spec_decode_entities(strip_state(html).0));
}

/// Text without an ampersand comes out of entity decoding unchanged.
pub proof fn law_decode_without_entities(s: Seq<char>)
    requires
        !s.contains('&'),
    ensures
        spec_decode_entities(s) == s,
{
    lemma_index_of_absent(s, '&');
}

proof fn lemma_index_of_absent(s: Seq<char>, c: char)
    requires
        !s.contains(c),
    ensures
        index_of(s, c) is None,
    decreases s.len(),
{
    if s.len() > 0 {
        assert(s[0] != c);
        assert forall|k: int| 0 <= k < s.drop_first().len() implies s.drop_first()[k] != c by {
            assert(s.drop_first()[k] == s[k + 1]);
        }
        lemma_index_of_absent(s.drop_first(), c);
    }
}

} // verus!
