use vstd::prelude::*;

use vaporetto::{CharacterBoundary, CharacterType, Model, Predictor, Sentence};
use vaporetto_rules::sentence_filters::ConcatGraphemeClustersFilter;
use vaporetto_rules::string_filters::KyteaFullwidthFilter;
use vaporetto_rules::{SentenceFilter, StringFilter};

use crate::filter::CharClass;

verus! {

#[verifier::external_type_specification]
#[verifier::external_body]
pub struct ExPredictor(Predictor);


/// A text the engine accepts: at least one character and no NUL.
pub open spec fn engine_accepts(text: Seq<char>) -> bool {
    text.len() > 0 && forall|i: int| 0 <= i < text.len() ==> text[i] != '\0'
}

/// The character class that the engine assigns to `c`, by code point.
pub open spec fn char_type_of(c: char) -> CharClass {
    let u = c as u32;
    if (0x30 <= u <= 0x39) || (0xFF10 <= u <= 0xFF19) {
        CharClass::Digit
    } else if (0x41 <= u <= 0x5A) || (0x61 <= u <= 0x7A) || (0xFF21 <= u <= 0xFF3A) || (0xFF41
        <= u <= 0xFF5A) {
        CharClass::Roman
    } else if 0x3040 <= u <= 0x3096 {
        CharClass::Hiragana
    } else if (0x30A0 <= u <= 0x30FA) || (0x30FC <= u <= 0x30FF) || (0xFF66 <= u <= 0xFF9F) {
        CharClass::Katakana
    } else if (0x3400 <= u <= 0x4DBF) || (0x4E00 <= u <= 0x9FFF) || (0xF900 <= u <= 0xFAFF) || (
    0x20000 <= u <= 0x2A6DF) || (0x2A700 <= u <= 0x2B73F) || (0x2B740 <= u <= 0x2B81F) || (0x2B820
        <= u <= 0x2CEAF) || (0x2F800 <= u <= 0x2FA1F) {
        CharClass::Kanji
    } else {
        CharClass::Other
    }
}

/// What full-width normalization makes of a character outside the cases that
/// `fullwidth_char` states.
pub uninterp spec fn fullwidth_other(c: char) -> char;

/// Full-width normalization of one character: an ASCII digit becomes its full-width form,
/// a full-width digit and NUL stay as they are.
pub open spec fn fullwidth_char(c: char) -> char {
    if '0' <= c <= '9' {
        ((c as u32) + 0xFEE0) as char
    } else if (0xFF10 <= c as u32 <= 0xFF19) || c == '\0' {
        c
    } else {
        fullwidth_other(c)
    }
}

/// The text after full-width normalization, character by character.
pub open spec fn fullwidth_of(text: Seq<char>) -> Seq<char> {
    text.map_values(|c: char| fullwidth_char(c))
}

/// For each gap between adjacent characters, whether it lies inside one grapheme cluster.
pub uninterp spec fn grapheme_joins_of(text: Seq<char>) -> Seq<bool>;

/// Relies on `vaporetto::CharacterType::get_type`, a table of code-point ranges, mapped
/// variant for variant.
#[verifier::external_body]
pub fn char_type(c: char) -> (r: CharClass)
    ensures
        r == char_type_of(c),
{
    match CharacterType::get_type(c) {
        CharacterType::Digit => CharClass::Digit,
        CharacterType::Roman => CharClass::Roman,
        CharacterType::Hiragana => CharClass::Hiragana,
        CharacterType::Katakana => CharClass::Katakana,
        CharacterType::Kanji => CharClass::Kanji,
        CharacterType::Other => CharClass::Other,
    }
}

/// Relies on `vaporetto_rules::string_filters::KyteaFullwidthFilter`, which maps each
/// character through one table to exactly one character: among others, ASCII letters,
/// digits and most ASCII punctuation to their full-width forms, `.` to `。`. Characters
/// outside the table (full-width digits and NUL among them) stay as they are, and no entry
/// maps to NUL.
#[verifier::external_body]
pub fn fullwidth(text: &str) -> (r: String)
    ensures
        r@ == fullwidth_of(text@),
        forall|i: int|
            0 <= i < text@.len() && !('0' <= text@[i] <= '9') && !(0xFF10 <= text@[i] as u32 <= 0xFF19)
                && text@[i] != '\0' ==> r@[i] == fullwidth_other(text@[i]),
        forall|i: int| 0 <= i < text@.len() ==> (r@[i] == '\0' <==> text@[i] == '\0'),
{
    KyteaFullwidthFilter.filter(text)
}

/// Relies on `vaporetto_rules::sentence_filters::ConcatGraphemeClustersFilter`: starting
/// from a boundary at every gap, the filter clears exactly the gaps inside a grapheme cluster.
#[verifier::external_body]
pub fn grapheme_joins(text: &str) -> (r: Vec<bool>)
    requires
        engine_accepts(text@),
    ensures
        r@ == grapheme_joins_of(text@),
        r@.len() + 1 == text@.len(),
{
    let mut s = match Sentence::from_raw(text) {
        Ok(s) => s,
        Err(_) => return vec![],
    };
    s.boundaries_mut().fill(CharacterBoundary::WordBoundary);
    ConcatGraphemeClustersFilter.filter(&mut s);
    s.boundaries().iter().map(|b| *b == CharacterBoundary::NotWordBoundary).collect()
}

/// The length of the header that `Model::read_slice` compares before decoding.
pub const MODEL_MAGIC_LEN: usize = 25;

/// Whether `bytes` decode as a model that a predictor can be built from, with or without
/// tag prediction.
pub uninterp spec fn native_model_ok(bytes: Seq<u8>, predict_tags: bool) -> bool;

/// The words of the dictionary of the model that `bytes` decode as.
pub uninterp spec fn dictionary_of(bytes: Seq<u8>) -> Seq<Seq<char>>;

/// Relies on `vaporetto::Model::read_slice` (which slices its input at the header's
/// length, hence the bound, and ignores trailing bytes), `Model::dictionary` with
/// `WordWeightRecord::get_word`, and `vaporetto::Predictor::new`. Each is a function of
/// its input; the model moves into the predictor, so the three are made in one place.
/// Running the predictor is left to the caller: on a model whose tables disagree with
/// each other it can panic, and no check through vaporetto's public API rules that out.
#[verifier::external_body]
fn load_native(bytes: &[u8], predict_tags: bool) -> (r: Result<(Predictor, Vec<String>), String>)
    requires
        bytes@.len() >= MODEL_MAGIC_LEN,
    ensures
        r is Ok <==> native_model_ok(bytes@, predict_tags),
        r is Ok ==> r->Ok_0.1@.map_values(|w: String| w@) == dictionary_of(bytes@),
{
    let (m, _) = Model::read_slice(bytes).map_err(|e| e.to_string())?;
    let words = m.dictionary().iter().map(|rec| rec.get_word().to_string()).collect();
    let predictor = Predictor::new(m, predict_tags).map_err(|e| e.to_string())?;
    Ok((predictor, words))
}

/// The boundary-prediction engine, with the model bytes its predictor was built from and
/// whether it was built with tags. Only `from_native` builds one, so `model` always names
/// the predictor's source.
pub struct Engine {
    predictor: Predictor,
    with_tags: bool,
    model: Ghost<Seq<u8>>,
}

impl Engine {
    pub closed spec fn tags_enabled(&self) -> bool {
        self.with_tags
    }

    /// The bytes the model was decoded from.
    pub closed spec fn model_bytes(&self) -> Seq<u8> {
        self.model@
    }

    /// Whether the engine was built with a tag model.
    pub fn with_tags(&self) -> (r: bool)
        ensures
            r == self.tags_enabled(),
    {
        self.with_tags
    }

    /// Builds the engine from a model in the native format, and returns it with the words
    /// of the model's dictionary.
    pub fn from_native(bytes: &[u8], predict_tags: bool) -> (r: Result<(Engine, Vec<String>), String>)
        ensures
            r is Ok <==> bytes@.len() >= MODEL_MAGIC_LEN && native_model_ok(bytes@, predict_tags),
            r is Ok ==> {
                let (e, words) = r->Ok_0;
                &&& e.tags_enabled() == predict_tags
                &&& e.model_bytes() == bytes@
                &&& words@.map_values(|w: String| w@) == dictionary_of(bytes@)
            },
    {
        if bytes.len() < MODEL_MAGIC_LEN {
            return Err("model is shorter than its header".to_owned());
        }
        let (predictor, words) = load_native(bytes, predict_tags)?;
        Ok((Engine { predictor, with_tags: predict_tags, model: Ghost(bytes@) }, words))
    }

    /// The predictor, for the caller to run on the text that `Vaporetto::prepare` gives.
    pub fn predictor(&self) -> &Predictor {
        &self.predictor
    }
}

/// Relies on `str::chars`, collected.
#[verifier::external_body]
pub fn chars_of(s: &str) -> (r: Vec<char>)
    ensures
        r@ == s@,
{
    s.chars().collect()
}

/// Relies on `FromIterator<&char> for String`.
#[verifier::external_body]
pub fn string_of(cs: &[char]) -> (r: String)
    ensures
        r@ == cs@,
{
    cs.iter().collect()
}

} // verus!
