use crate::numbers::{hex_char, hex_chars, spec_hex};
use crate::playlist::hex_bytes;
use crate::text::{chars_of, string_from_chars};
use vstd::prelude::*;

verus! {

/// What `std::hash::DefaultHasher::new()` gives for a string once it has hashed it
/// (`Hash for str` writes its bytes and then `0xff`). `new` starts from fixed keys, so
/// the value depends on the string alone; std does not promise it across releases.
pub uninterp spec fn default_hash_of(text: Seq<char>) -> u64;

/// `DefaultHasher::new`, `Hash::hash` of the string, `Hasher::finish`.
#[verifier::external_body]
fn default_hash(text: &str) -> (r: u64)
    ensures
        r == default_hash_of(text@),
{
    let mut hasher = std::hash::DefaultHasher::new();
    std::hash::Hash::hash(text, &mut hasher);
    std::hash::Hasher::finish(&hasher)
}

pub open spec fn starts_with_http(s: Seq<char>) -> bool {
    s.len() >= 4 && s.take(4) == seq!['h', 't', 't', 'p']
}

/// The name an image is cached under: a picture id is its own name; a URL is named by
/// `url-` and its hash in sixteen hexadecimal digits.
pub open spec fn spec_key(picture: Seq<char>) -> Seq<char> {
    if starts_with_http(picture) {
        seq!['u', 'r', 'l', '-'] + spec_hex(default_hash_of(picture) as nat, 16)
    } else {
        picture
    }
}

fn http_prefix(s: &[char]) -> (r: bool)
    ensures
        r == starts_with_http(s@),
{
    if s.len() < 4 {
        return false;
    }
    let r = s[0] == 'h' && s[1] == 't' && s[2] == 't' && s[3] == 'p';
    proof {
        if r {
            assert(s@.take(4) =~= seq!['h', 't', 't', 'p']);
        } else if s@.take(4) == seq!['h', 't', 't', 'p'] {
            assert(s@.take(4)[0] == 'h');
            assert(s@.take(4)[1] == 't');
            assert(s@.take(4)[2] == 't');
            assert(s@.take(4)[3] == 'p');
        }
    }
    r
}

/// The name an image is cached under.
pub fn key(picture: &str) -> (r: String)
    ensures
        r@ == spec_key(picture@),
{
    let chars = chars_of(picture);
    if !http_prefix(chars.as_slice()) {
        return picture.to_string();
    }
    url_key(default_hash(picture))
}

/// The name a URL's image is cached under, from the URL's hash: `url-` and sixteen
/// hexadecimal digits.
pub fn url_key(hash: u64) -> (r: String)
    ensures
        r@ == seq!['u', 'r', 'l', '-'] + spec_hex(hash as nat, 16),
{
    let mut out: Vec<char> = Vec::new();
    out.push('u');
    out.push('r');
    out.push('l');
    out.push('-');
    let digits = hex_chars(hash, 16);
    out.append(&mut digits.clone());
    assert(out@ =~= seq!['u', 'r', 'l', '-'] + spec_hex(hash as nat, 16));
    string_from_chars(out.as_slice())
}

/// The file an image is cached in, inside the image cache.
pub fn file_name(picture: &str) -> (r: String)
    ensures
        r@ == spec_key(picture@) + seq!['.', 'j', 'p', 'g'],
{
    let name = key(picture);
    let mut out = chars_of(name.as_str());
    out.push('.');
    out.push('j');
    out.push('p');
    out.push('g');
    string_from_chars(out.as_slice())
}

/// An image id that is not hexadecimal bytes.
#[derive(Debug, Clone, Copy, PartialEq, Eq, Structural)]
pub struct MalformedImageId;

pub open spec fn hex_digit(c: char) -> Option<u8> {
    if '0' <= c && c <= '9' {
        Some((c as u32 - '0' as u32) as u8)
    } else if 'a' <= c && c <= 'f' {
        Some((c as u32 - 'a' as u32 + 10) as u8)
    } else if 'A' <= c && c <= 'F' {
        Some((c as u32 - 'A' as u32 + 10) as u8)
    } else {
        None
    }
}

/// `u8::from_str_radix` of two characters in base 16: two digits, or `+` and a digit.
pub open spec fn pair_value(a: char, b: char) -> Option<u8> {
    match (hex_digit(a), hex_digit(b)) {
        (Some(x), Some(y)) => Some((x * 16 + y) as u8),
        (None, Some(y)) => if a == '+' {
            Some(y)
        } else {
            None
        },
        _ => None,
    }
}

/// The bytes that a hexadecimal image id spells, two characters a byte.
pub open spec fn spec_decode(hex: Seq<char>) -> Option<Seq<u8>>
    decreases hex.len(),
{
    if hex.len() == 0 {
        Some(seq![])
    } else if hex.len() == 1 {
        None
    } else {
        match (pair_value(hex[0], hex[1]), spec_decode(hex.skip(2))) {
            (Some(b), Some(rest)) => Some(seq![b] + rest),
            _ => None,
        }
    }
}

fn digit(c: char) -> (r: Option<u8>)
    ensures
        r == hex_digit(c),
{
    if '0' <= c && c <= '9' {
        Some((c as u32 - '0' as u32) as u8)
    } else if 'a' <= c && c <= 'f' {
        Some((c as u32 - 'a' as u32 + 10) as u8)
    } else if 'A' <= c && c <= 'F' {
        Some((c as u32 - 'A' as u32 + 10) as u8)
    } else {
        None
    }
}

fn pair(a: char, b: char) -> (r: Option<u8>)
    ensures
        r == pair_value(a, b),
{
    match (digit(a), digit(b)) {
        (Some(x), Some(y)) => Some(x * 16 + y),
        (None, Some(y)) => if a == '+' {
            Some(y)
        } else {
            None
        },
        _ => None,
    }
}

proof fn lemma_decode_step(hex: Seq<char>, i: int, bytes: Seq<u8>)
    requires
        0 <= i,
        i + 2 <= hex.len(),
        spec_decode(hex) == match spec_decode(hex.skip(i)) {
            Some(rest) => Some(bytes + rest),
            None => None::<Seq<u8>>,
        },
    ensures
        spec_decode(hex) == match (pair_value(hex[i], hex[i + 1]), spec_decode(hex.skip(i + 2))) {
            (Some(b), Some(rest)) => Some(bytes.push(b) + rest),
            _ => None::<Seq<u8>>,
        },
{
    let t = hex.skip(i);
    assert(t[0] == hex[i] && t[1] == hex[i + 1]);
    assert(t.skip(2) =~= hex.skip(i + 2));
    match (pair_value(hex[i], hex[i + 1]), spec_decode(hex.skip(i + 2))) {
        (Some(b), Some(rest)) => {
            assert(bytes + (seq![b] + rest) =~= bytes.push(b) + rest);
        },
        _ => {},
    }
}

/// The bytes of a picture id written in hexadecimal.
pub fn decode(hex: &str) -> (r: Result<Vec<u8>, MalformedImageId>)
    ensures
        match r {
            Ok(bytes) => spec_decode(hex@) == Some(bytes@),
            Err(_) => spec_decode(hex@) is None,
        },
{
    let s = chars_of(hex);
    let n = s.len();
    let mut out: Vec<u8> = Vec::new();
    let mut i: usize = 0;
    assert(s@.skip(0) =~= s@);
    proof {
        match spec_decode(s@) {
            Some(rest) => {
                assert(out@ + rest =~= rest);
            },
            None => {},
        }
    }
    while i < n
        invariant
            n == s@.len(),
            s@ == hex@,
            i <= n,
            spec_decode(s@) == match spec_decode(s@.skip(i as int)) {
                Some(rest) => Some(out@ + rest),
                None => None::<Seq<u8>>,
            },
        decreases n - i,
    {
        if i + 1 == n {
            assert(s@.skip(i as int).len() == 1);
            return Err(MalformedImageId);
        }
        proof {
            lemma_decode_step(s@, i as int, out@);
        }
        match pair(s[i], s[i + 1]) {
            Some(b) => {
                out.push(b);
            },
            None => {
                return Err(MalformedImageId);
            },
        }
        i = i + 2;
    }
    assert(s@.skip(i as int) =~= Seq::<char>::empty());
    assert(out@ + seq![] =~= out@);
    Ok(out)
}


proof fn lemma_hex_digit(d: nat)
    requires
        d < 16,
    ensures
        hex_digit(hex_char(d)) == Some(d as u8),
{
}

proof fn lemma_hex_bytes_front(x: u8, rest: Seq<u8>)
    ensures
        hex_bytes(seq![x] + rest) == spec_hex(x as nat, 2) + hex_bytes(rest),
    decreases rest.len(),
{
    if rest.len() == 0 {
        assert(seq![x] + rest =~= seq![x]);
        assert(seq![x].drop_last() =~= Seq::<u8>::empty());
        assert(hex_bytes(Seq::<u8>::empty()) =~= Seq::<char>::empty());
        assert(hex_bytes(seq![x]) =~= spec_hex(x as nat, 2));
        assert(spec_hex(x as nat, 2) + hex_bytes(rest) =~= spec_hex(x as nat, 2));
    } else {
        let all = seq![x] + rest;
        assert(all.drop_last() =~= seq![x] + rest.drop_last());
        assert(all.last() == rest.last());
        lemma_hex_bytes_front(x, rest.drop_last());
        assert(hex_bytes(all) =~= spec_hex(x as nat, 2) + hex_bytes(rest));
    }
}

/// A picture id that the library wrote in hexadecimal reads back as the same bytes:
/// decoding undoes the encoding.
pub proof fn law_picture_id_round_trip(bytes: Seq<u8>)
    ensures
        spec_decode(hex_bytes(bytes)) == Some(bytes),
    decreases bytes.len(),
{
    if bytes.len() == 0 {
        assert(hex_bytes(bytes) =~= Seq::<char>::empty());
    } else {
        let x = bytes[0];
        let rest = bytes.drop_first();
        assert(bytes =~= seq![x] + rest);
        lemma_hex_bytes_front(x, rest);
        let hex = hex_bytes(bytes);
        let n = x as nat;
        assert(spec_hex(n, 2) =~= seq![hex_char((n / 16) % 16), hex_char(n % 16)]) by {
            reveal_with_fuel(spec_hex, 3);
        }
        assert(hex[0] == hex_char((n / 16) % 16));
        assert(hex[1] == hex_char(n % 16));
        lemma_hex_digit((n / 16) % 16);
        lemma_hex_digit(n % 16);
        assert((n / 16) % 16 * 16 + n % 16 == n);
        assert(hex.skip(2) =~= hex_bytes(rest));
        law_picture_id_round_trip(rest);
    }
}


/// Where an image is downloaded from: a URL, or the image service's file id.
#[derive(Debug, Clone, PartialEq, Eq)]
pub enum ImageSource {
    Url(String),
    FileId(Vec<u8>),
}

/// Where to download a picture from: a URL as it is, else the file id its
/// hexadecimal spells; a malformed id is refused.
pub fn image_source(picture: &str) -> (r: Result<ImageSource, MalformedImageId>)
    ensures
        starts_with_http(picture@) ==> (r matches Ok(ImageSource::Url(u)) && u@ == picture@),
        !starts_with_http(picture@) ==> match spec_decode(picture@) {
            Some(bytes) => r matches Ok(ImageSource::FileId(b)) && b@ == bytes,
            None => r is Err,
        },
{
    let chars = chars_of(picture);
    if http_prefix(chars.as_slice()) {
        return Ok(ImageSource::Url(picture.to_string()));
    }
    match decode(picture) {
        Ok(bytes) => Ok(ImageSource::FileId(bytes)),
        Err(e) => Err(e),
    }
}

} // verus!
