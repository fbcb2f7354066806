use unicode_script::{Script, UnicodeScript};
use vstd::prelude::*;

verus! {

/// The scripts that the lyrics logic tells apart; every other script is `Other`.
#[derive(Debug, Clone, Copy, PartialEq, Eq, Structural)]
pub enum ScriptClass {
    Latin,
    Common,
    Inherited,
    Unknown,
    Hiragana,
    Katakana,
    Other,
}

/// The Unicode script of a character, as `unicode_script` reports it.
pub uninterp spec fn char_script(c: char) -> ScriptClass;

/// Calls `UnicodeScript::script` of the `unicode_script` crate on `c`; the contract
/// names its answer `char_script(c)`, a function of the character alone (a table
/// lookup in the crate).
#[verifier::external_body]
pub(crate) fn script_of(c: char) -> (r: ScriptClass)
    ensures
        r == char_script(c),
{
    match c.script() {
        Script::Latin => ScriptClass::Latin,
        Script::Common => ScriptClass::Common,
        Script::Inherited => ScriptClass::Inherited,
        Script::Unknown => ScriptClass::Unknown,
        Script::Hiragana => ScriptClass::Hiragana,
        Script::Katakana => ScriptClass::Katakana,
        _ => ScriptClass::Other,
    }
}

/// The romaji reading that `kakasi::convert` gives of a text.
pub uninterp spec fn kakasi_romaji_of(text: Seq<char>) -> Seq<char>;

/// Calls `kakasi::convert` on `text` and keeps its `romaji` field; the contract
/// names the result `kakasi_romaji_of(text)` (a dictionary-driven conversion of
/// the text alone) and states nothing more of it.
#[verifier::external_body]
pub(crate) fn kakasi_romaji(text: &str) -> (r: String)
    ensures
        r@ == kakasi_romaji_of(text@),
{
    kakasi::convert(text).romaji
}

/// The ASCII transliteration that `deunicode::deunicode` gives of a text.
pub uninterp spec fn deunicode_of(text: Seq<char>) -> Seq<char>;

/// Calls `deunicode::deunicode` on `text`; the contract names the result
/// `deunicode_of(text)` (a table-driven transliteration of the text alone).
#[verifier::external_body]
pub(crate) fn deunicode_text(text: &str) -> (r: String)
    ensures
        r@ == deunicode_of(text@),
{
    deunicode::deunicode(text)
}

} // verus!
