use vstd::prelude::*;

use crate::engine::{
    chars_of, dictionary_of, engine_accepts, fullwidth, fullwidth_of, native_model_ok,
    string_of, Engine,
    MODEL_MAGIC_LEN,
};
use crate::engine::{char_type_of, fullwidth_char};
use crate::filter::{CharClass, lemma_wsconst_holds, apply_filters, first_invalid, filter_code, parse_wsconst, run_filters, valid_config, Filter};
use crate::interner::{cache_contents, StringCache};
use crate::render::{render, render_model};
use crate::tokens::{describes, engine_tag_views, split_spans, tag_texts, TokenList, TokenListModel};

use vaporetto::Predictor;


verus! {

/// Why a session could not be built.
#[derive(Debug, PartialEq, Eq)]
pub enum ConstructionError {
    /// A configuration character that names no filter.
    InvalidWsconst(char),
    /// The model bytes could not be decoded, with the cause.
    InvalidModel(String),
}

/// The text that the engine sees.
pub open spec fn engine_text(normalize: bool, text: Seq<char>) -> Seq<char> {
    if normalize {
        fullwidth_of(text)
    } else {
        text
    }
}

/// A tokenization session: the engine, its configuration, and the caches and scratch
/// buffer that successive calls reuse.
pub struct Vaporetto {
    engine: Engine,
    normalize: bool,
    post_filters: Vec<Filter>,
    word_cache: StringCache,
    tag_cache: StringCache,
    string_buf: Vec<char>,
}

impl Vaporetto {
    /// Whether tags are predicted.
    pub closed spec fn predicts_tags(&self) -> bool {
        self.engine.tags_enabled()
    }

    /// Whether input texts are normalized before prediction.
    pub closed spec fn normalizes(&self) -> bool {
        self.normalize
    }

    /// The post-filters, in the order they run.
    pub closed spec fn filters(&self) -> Seq<Filter> {
        self.post_filters@
    }

    /// The dictionary words that share one handle.
    pub closed spec fn words(&self) -> Set<Seq<char>> {
        cache_contents(self.word_cache)
    }

    /// The tags seen so far, each with one shared handle.
    pub closed spec fn tags_seen(&self) -> Set<Seq<char>> {
        cache_contents(self.tag_cache)
    }

    /// The bytes the model was decoded from.
    pub closed spec fn model_bytes(&self) -> Seq<u8> {
        self.engine.model_bytes()
    }

    /// Two sessions tokenize alike: same model, same tag prediction, same normalization,
    /// same post-filters.
    pub open spec fn same_engine_config(&self, other: &Vaporetto) -> bool {
        &&& self.model_bytes() == other.model_bytes()
        &&& self.predicts_tags() == other.predicts_tags()
        &&& self.normalizes() == other.normalizes()
        &&& self.filters() == other.filters()
    }

    /// The configuration does not change after construction.
    pub open spec fn same_config(&self, other: &Vaporetto) -> bool {
        &&& self.same_engine_config(other)
        &&& self.words() == other.words()
    }

    /// The gaps of `text` that end a token, given the gaps `predicted` that the engine
    /// marks on the text it sees: those gaps after every post-filter.
    pub open spec fn final_gaps(&self, text: Seq<char>, predicted: Seq<bool>) -> Seq<bool> {
        apply_filters(self.filters(), predicted, engine_text(self.normalizes(), text))
    }

    /// `m` is the token list that this session makes of `text` when the engine marks the
    /// gaps `predicted` and fills the tag table `tags` of `n_tags` slots per character.
    pub open spec fn tokens_of(
        &self,
        text: Seq<char>,
        predicted: Seq<bool>,
        tags: Seq<Option<Seq<char>>>,
        n_tags: nat,
        m: TokenListModel,
    ) -> bool {
        describes(m, text, self.final_gaps(text, predicted), tags, n_tags)
    }

    /// Builds a session around `engine`, whose model's dictionary holds `words`. The
    /// configuration string is checked first.
    pub fn create_internal(engine: Engine, words: Vec<String>, wsconst: &str, normalize: bool) -> (r: Result<
        Vaporetto,
        ConstructionError,
    >)
        ensures
            !valid_config(wsconst@) <==> r is Err,
            r is Err ==> (r matches Err(ConstructionError::InvalidWsconst(c)) && first_invalid(wsconst@, c)),
            r is Ok ==> {
                let s = r->Ok_0;
                &&& s.predicts_tags() == engine.tags_enabled()
                &&& s.model_bytes() == engine.model_bytes()
                &&& s.normalizes() == normalize
                &&& s.filters() == wsconst@.map_values(|c: char| filter_code(c)->Some_0)
                &&& s.words() == Set::new(|w: Seq<char>| exists|j: int| 0 <= j < words@.len() && words@[j]@ == w)
                &&& s.tags_seen() == Set::<Seq<char>>::empty()
            },
    {
        let post_filters = match parse_wsconst(wsconst) {
            Ok(fs) => fs,
            Err(c) => return Err(ConstructionError::InvalidWsconst(c)),
        };
        let mut word_cache = StringCache::new();
        let mut i: usize = 0;
        while i < words.len()
            invariant
                i <= words@.len(),
                cache_contents(word_cache) == Set::new(|w: Seq<char>| exists|j: int| 0 <= j < i && words@[j]@ == w),
            decreases words@.len() - i,
        {
            let ghost before = cache_contents(word_cache);
            word_cache.intern(words[i].as_str());
            proof {
                assert(cache_contents(word_cache) =~= Set::new(|w: Seq<char>| exists|j: int| 0 <= j < i + 1 && words@[j]@ == w)) by {
                    assert forall|w: Seq<char>| cache_contents(word_cache).contains(w) implies exists|j: int| 0 <= j < i + 1 && words@[j]@ == w by {
                        if w != words@[i as int]@ {
                            assert(before.contains(w));
                        }
                    }
                    assert forall|w: Seq<char>| (exists|j: int| 0 <= j < i + 1 && words@[j]@ == w) implies cache_contents(word_cache).contains(w) by {
                        let j = choose|j: int| 0 <= j < i + 1 && words@[j]@ == w;
                        if j < i {
                            assert(before.contains(w));
                        }
                    }
                }
            }
            i = i + 1;
        }
        Ok(Vaporetto {
            engine,
            normalize,
            post_filters,
            word_cache,
            tag_cache: StringCache::new(),
            string_buf: Vec::new(),
        })
    }

    /// Builds a session from a model in the native format. The model is decoded before
    /// the configuration string is checked.
    pub fn from_model_bytes(model: &[u8], predict_tags: bool, wsconst: &str, norm: bool) -> (r: Result<
        Vaporetto,
        ConstructionError,
    >)
        ensures
            r matches Err(ConstructionError::InvalidModel(_)) <==> !model_accepted(model@, predict_tags),
            model_accepted(model@, predict_tags) && !valid_config(wsconst@) ==> (r matches Err(
                ConstructionError::InvalidWsconst(c),
            ) && first_invalid(wsconst@, c)),
            model_accepted(model@, predict_tags) && valid_config(wsconst@) ==> r is Ok,
            r matches Err(ConstructionError::InvalidModel(cause)) ==> cause@.len() > 0,
            r is Ok ==> built_from(r->Ok_0, model@, predict_tags, wsconst@, norm),
    {
        let (engine, words) = match Engine::from_native(model, predict_tags) {
            Ok(built) => built,
            Err(msg) => return Err(ConstructionError::InvalidModel(readable_cause(msg))),
        };
        let r = Self::create_internal(engine, words, wsconst, norm);
        proof {
            if r is Ok {
                let s = r->Ok_0;
                assert(s.words() =~= dictionary_of(model@).to_set()) by {
                    assert forall|w: Seq<char>| s.words().contains(w) implies dictionary_of(model@).to_set().contains(w) by {
                        let j = choose|j: int| 0 <= j < words@.len() && words@[j]@ == w;
                        assert(dictionary_of(model@)[j] == w);
                    }
                    assert forall|w: Seq<char>| dictionary_of(model@).to_set().contains(w) implies s.words().contains(w) by {
                        let j = choose|j: int| 0 <= j < dictionary_of(model@).len() && dictionary_of(model@)[j] == w;
                        assert(words@[j]@ == w);
                    }
                }
            }
        }
        r
    }
}

/// The cause of a failed decode, with a fixed one in place of an empty text.
fn readable_cause(msg: String) -> (r: String)
    ensures
        r@.len() > 0,
        msg@.len() > 0 ==> r@ == msg@,
{
    if msg.as_str().is_empty() {
        proof {
            reveal_strlit("the model could not be decoded");
        }
        "the model could not be decoded".to_owned()
    } else {
        msg
    }
}

/// The engine builds a predictor from these model bytes.
pub open spec fn model_accepted(model: Seq<u8>, predict_tags: bool) -> bool {
    model.len() >= MODEL_MAGIC_LEN && native_model_ok(model, predict_tags)
}

/// `s` is a fresh session over the model `model` with this configuration.
pub open spec fn built_from(s: Vaporetto, model: Seq<u8>, predict_tags: bool, wsconst: Seq<char>, norm: bool) -> bool {
    &&& s.predicts_tags() == predict_tags
    &&& s.model_bytes() == model
    &&& s.normalizes() == norm
    &&& s.filters() == wsconst.map_values(|c: char| filter_code(c)->Some_0)
    &&& s.words() == dictionary_of(model).to_set()
    &&& s.tags_seen() == Set::<Seq<char>>::empty()
}

impl Vaporetto {
    /// The predictor, for the caller to run on the text that `prepare` gives.
    pub fn predictor(&self) -> &Predictor {
        self.engine.predictor()
    }

    /// Whether tags are predicted: the caller then fills the tag table.
    pub fn predict_tags(&self) -> (r: bool)
        ensures
            r == self.predicts_tags(),
    {
        self.engine.with_tags()
    }

    /// The text that the engine is to see for `text`, or `None` when the engine rejects
    /// `text` (empty, or holding NUL).
    pub fn prepare(&self, text: &String) -> (r: Option<String>)
        ensures
            r is None <==> !engine_accepts(text@),
            r is Some ==> r->Some_0@ == engine_text(self.normalizes(), text@),
            r is Some ==> engine_accepts(r->Some_0@) && r->Some_0@.len() == text@.len(),
    {
        let raw = chars_of(text.as_str());
        if raw.len() == 0 {
            return None;
        }
        let mut i: usize = 0;
        while i < raw.len()
            invariant
                raw@ == text@,
                i <= raw@.len(),
                forall|j: int| 0 <= j < i ==> text@[j] != '\0',
            decreases raw@.len() - i,
        {
            if raw[i] == '\0' {
                return None;
            }
            i = i + 1;
        }
        let seen: String = if self.normalize {
            fullwidth(text.as_str())
        } else {
            text.clone()
        };
        proof {
            assert(seen@.len() == text@.len());
            assert forall|j: int| 0 <= j < seen@.len() implies seen@[j] != '\0' by {
                assert(text@[j] != '\0');
            }
        }
        Some(seen)
    }

    /// Applies the post-filters, in order, to the gaps that the engine marked on `seen`.
    pub fn filter_gaps(&self, seen: &String, predicted: Vec<bool>) -> (r: Vec<bool>)
        requires
            engine_accepts(seen@),
            predicted@.len() + 1 == seen@.len(),
        ensures
            r@ == apply_filters(self.filters(), predicted@, seen@),
            r@.len() == predicted@.len(),
    {
        let seen_chars = chars_of(seen.as_str());
        let mut b = predicted;
        run_filters(&self.post_filters, seen.as_str(), &seen_chars, &mut b);
        proof {
            crate::filter::lemma_filters_len(self.post_filters@, predicted@, seen@);
        }
        b
    }

    /// The tokens of `text` cut at the final gaps `b`, with the engine's tag table. Every
    /// tag is added to the tag cache; dictionary words share their cached handle.
    pub fn tokenize_outcome(&mut self, text: &String, b: &Vec<bool>, tags: &Vec<Option<String>>, n_tags: usize) -> (r: TokenList)
        requires
            b@.len() + 1 == text@.len(),
            tags@.len() == n_tags * text@.len(),
        ensures
            final(self).same_config(old(self)),
            describes(r@, text@, b@, engine_tag_views(tags@), n_tags as nat),
            r@.tags.len() == r@.n_tags * text@.len(),
            final(self).tags_seen() == old(self).tags_seen().union(tag_texts(engine_tag_views(tags@))),
    {
        let chars = chars_of(text.as_str());
        let r = TokenList::assemble(&chars, b, tags, n_tags, &self.word_cache, &mut self.tag_cache);
        assert(engine_tag_views(tags@).len() == tags@.len());
        r
    }

    /// Writes the tokens of `text` cut at the final gaps `b` separated by single spaces,
    /// each followed by its tag slots, each after a slash (an empty slot as an empty
    /// segment). Spaces, slashes and backslashes in surfaces and tags get a backslash
    /// before them.
    pub fn render_outcome(&mut self, text: &String, b: &Vec<bool>, tags: &Vec<Option<String>>, n_tags: usize) -> (r: String)
        requires
            b@.len() + 1 == text@.len(),
            tags@.len() == n_tags * text@.len(),
        ensures
            final(self).same_config(old(self)),
            final(self).tags_seen() == old(self).tags_seen(),
            exists|m: TokenListModel| describes(m, text@, b@, engine_tag_views(tags@), n_tags as nat),
            forall|m: TokenListModel|
                describes(m, text@, b@, engine_tag_views(tags@), n_tags as nat) ==> r@ == render_model(m),
    {
        let chars = chars_of(text.as_str());
        let n_chars = chars.len();
        let spans = split_spans(b);
        let ghost sp = spans@.map_values(|s: (usize, usize)| (s.0 as int, s.1 as int));
        proof {
            assert forall|k: int| 0 <= k < spans@.len() implies #[trigger] spans@[k].0 < spans@[k].1
                && spans@[k].1 <= chars@.len() by {
                assert(sp[k] == (spans@[k].0 as int, spans@[k].1 as int));
                crate::tokens::lemma_spans_bounded(sp, b@, k);
            }
        }
        render(&chars, &spans, tags, n_tags, &mut self.string_buf);
        let ghost built = TokenListModel {
            spans: sp,
            surfaces: spans@.map_values(|s: (usize, usize)| chars@.subrange(s.0 as int, s.1 as int)),
            tags: engine_tag_views(tags@),
            n_tags: n_tags as nat,
        };
        proof {
            assert forall|k: int| 0 <= k < built.spans.len() implies #[trigger] built.surfaces[k] == text@.subrange(
                built.spans[k].0,
                built.spans[k].1,
            ) by {
                assert(sp[k] == (spans@[k].0 as int, spans@[k].1 as int));
            }
            assert(describes(built, text@, b@, engine_tag_views(tags@), n_tags as nat));
            assert forall|m: TokenListModel| describes(m, text@, b@, engine_tag_views(tags@), n_tags as nat) implies self.string_buf@ == render_model(m) by {
                lemma_described_lists_equal(m, built, text@, b@, engine_tag_views(tags@), n_tags as nat);
            }
        }
        string_of(self.string_buf.as_slice())
    }
}

/// One engine outcome describes one token list.
pub proof fn lemma_described_lists_equal(
    a: TokenListModel,
    b: TokenListModel,
    text: Seq<char>,
    gaps: Seq<bool>,
    tags: Seq<Option<Seq<char>>>,
    n_tags: nat,
)
    requires
        describes(a, text, gaps, tags, n_tags),
        describes(b, text, gaps, tags, n_tags),
    ensures
        a == b,
{
    crate::tokens::lemma_spans_unique(a.spans, b.spans, gaps);
    assert(a.surfaces =~= b.surfaces);
}

/// Rendering an engine outcome gives the rendering of its token list: for the same
/// text, final gaps and tag table, the list that `tokenize_outcome` returns renders as
/// what `render_outcome` returns.
pub proof fn lemma_render_round_trip(
    text: Seq<char>,
    b: Seq<bool>,
    tags: Seq<Option<Seq<char>>>,
    n_tags: nat,
    list: TokenListModel,
    rendered: Seq<char>,
)
    requires
        describes(list, text, b, tags, n_tags),
        forall|m: TokenListModel| describes(m, text, b, tags, n_tags) ==> rendered == render_model(m),
    ensures
        rendered == render_model(list),
{
}

/// Two sessions built alike make the same token list of a text on which the engine marks
/// the same gaps and fills the same tags: the same spans, surfaces and tags.
pub proof fn lemma_same_config_same_tokens(
    s1: Vaporetto,
    s2: Vaporetto,
    text: Seq<char>,
    predicted: Seq<bool>,
    tags: Seq<Option<Seq<char>>>,
    n_tags: nat,
    l1: TokenListModel,
    l2: TokenListModel,
)
    requires
        s1.same_engine_config(&s2),
        s1.tokens_of(text, predicted, tags, n_tags, l1),
        s2.tokens_of(text, predicted, tags, n_tags, l2),
    ensures
        l1 == l2,
{
    lemma_described_lists_equal(l1, l2, text, s1.final_gaps(text, predicted), tags, n_tags);
}

/// The tokens of an accepted text cover it exactly: the first starts at 0, each ends
/// where the next starts, none is empty, and the last ends at the text's length.
pub proof fn lemma_tokens_partition(text: Seq<char>, b: Seq<bool>, tags: Seq<Option<Seq<char>>>, n_tags: nat, m: TokenListModel)
    requires
        describes(m, text, b, tags, n_tags),
        b.len() + 1 == text.len(),
    ensures
        m.spans.len() > 0,
        m.spans[0].0 == 0,
        m.spans.last().1 == text.len(),
        forall|k: int| 0 <= k < m.spans.len() - 1 ==> #[trigger] m.spans[k].1 == m.spans[k + 1].0,
        forall|k: int| 0 <= k < m.spans.len() ==> 0 <= #[trigger] m.spans[k].0 < m.spans[k].1 <= text.len(),
{
    assert forall|k: int| 0 <= k < m.spans.len() implies 0 <= #[trigger] m.spans[k].0 < m.spans[k].1 <= text.len() by {
        crate::tokens::lemma_spans_bounded(m.spans, b, k);
    }
}

/// With normalization, texts that normalize alike are cut alike when the engine marks
/// the same gaps on the text it sees (which is the same text), while each token's surface
/// stays the original text's characters at its span.
pub proof fn lemma_normalized_texts_split_alike(
    s: Vaporetto,
    t1: Seq<char>,
    t2: Seq<char>,
    predicted: Seq<bool>,
    tags: Seq<Option<Seq<char>>>,
    n_tags: nat,
    m1: TokenListModel,
    m2: TokenListModel,
)
    requires
        s.normalizes(),
        fullwidth_of(t1) == fullwidth_of(t2),
        s.tokens_of(t1, predicted, tags, n_tags, m1),
        s.tokens_of(t2, predicted, tags, n_tags, m2),
    ensures
        m1.spans == m2.spans,
        m1.tags == m2.tags,
        forall|k: int| 0 <= k < m1.spans.len() ==> #[trigger] m1.surfaces[k] == t1.subrange(m1.spans[k].0, m1.spans[k].1),
        forall|k: int| 0 <= k < m2.spans.len() ==> #[trigger] m2.surfaces[k] == t2.subrange(m2.spans[k].0, m2.spans[k].1),
{
    assert(s.final_gaps(t1, predicted) == s.final_gaps(t2, predicted));
    crate::tokens::lemma_spans_unique(m1.spans, m2.spans, s.final_gaps(t1, predicted));
}

/// Normalization keeps a digit a digit.
proof fn lemma_digit_stays_digit(c: char)
    requires
        char_type_of(c) == CharClass::Digit,
    ensures
        char_type_of(fullwidth_char(c)) == CharClass::Digit,
{
    if '0' <= c <= '9' {
        assert(0xFF10 <= fullwidth_char(c) as u32 <= 0xFF19);
    }
}

/// With the filter for class `t`, no token ends between two adjacent characters that the
/// engine classes as `t`, whatever gaps the engine marked: a run of such characters is
/// never split.
pub proof fn lemma_class_runs_kept(
    s: Vaporetto,
    text: Seq<char>,
    predicted: Seq<bool>,
    tags: Seq<Option<Seq<char>>>,
    n_tags: nat,
    m: TokenListModel,
    t: CharClass,
    k: int,
)
    requires
        s.filters().contains(Filter::WsConst(t)),
        s.tokens_of(text, predicted, tags, n_tags, m),
        0 <= k < m.spans.len() - 1,
    ensures
        !(char_type_of(engine_text(s.normalizes(), text)[m.spans[k].1 - 1]) == t
            && char_type_of(engine_text(s.normalizes(), text)[m.spans[k].1]) == t),
{
    let seen = engine_text(s.normalizes(), text);
    let b = s.final_gaps(text, predicted);
    let i = m.spans[k].1 - 1;
    crate::tokens::lemma_spans_bounded(m.spans, b, k);
    crate::tokens::lemma_spans_bounded(m.spans, b, k + 1);
    assert(m.spans[k].1 == m.spans[k + 1].0);
    assert(m.spans[k + 1].0 < m.spans[k + 1].1);
    assert(b[i]);
    if char_type_of(seen[i]) == t && char_type_of(seen[i + 1]) == t {
        crate::filter::lemma_filters_len(s.filters(), predicted, seen);
        lemma_wsconst_holds(s.filters(), predicted, seen, t, i);
    }
}

/// With the digit filter, a run of digits in the caller's text is never split, with or
/// without normalization and whatever gaps the engine marked: no token ends between two
/// adjacent digits.
pub proof fn lemma_digit_runs_kept(
    s: Vaporetto,
    text: Seq<char>,
    predicted: Seq<bool>,
    tags: Seq<Option<Seq<char>>>,
    n_tags: nat,
    m: TokenListModel,
    k: int,
)
    requires
        s.filters().contains(Filter::WsConst(CharClass::Digit)),
        s.tokens_of(text, predicted, tags, n_tags, m),
        predicted.len() + 1 == text.len(),
        0 <= k < m.spans.len() - 1,
    ensures
        !(char_type_of(text[m.spans[k].1 - 1]) == CharClass::Digit && char_type_of(text[m.spans[k].1])
            == CharClass::Digit),
{
    let p = m.spans[k].1;
    let seen = engine_text(s.normalizes(), text);
    assert(seen.len() == text.len());
    crate::filter::lemma_filters_len(s.filters(), predicted, seen);
    lemma_tokens_partition(text, s.final_gaps(text, predicted), tags, n_tags, m);
    assert(m.spans[k + 1].0 < m.spans[k + 1].1);
    lemma_class_runs_kept(s, text, predicted, tags, n_tags, m, CharClass::Digit, k);
    if char_type_of(text[p - 1]) == CharClass::Digit && char_type_of(text[p]) == CharClass::Digit {
        if s.normalizes() {
            lemma_digit_stays_digit(text[p - 1]);
            lemma_digit_stays_digit(text[p]);
            assert(seen[p - 1] == fullwidth_char(text[p - 1]));
            assert(seen[p] == fullwidth_char(text[p]));
        }
    }
}

/// With normalization, a text and the same text with its full-width digits written as
/// ASCII digits are one text to the engine; given its gaps and tags for that text, both
/// are cut alike, and each keeps its own characters as surfaces.
pub proof fn lemma_full_and_half_digits_alike(
    s: Vaporetto,
    a: Seq<char>,
    b: Seq<char>,
    predicted: Seq<bool>,
    tags: Seq<Option<Seq<char>>>,
    n_tags: nat,
    ma: TokenListModel,
    mb: TokenListModel,
)
    requires
        s.normalizes(),
        a.len() == b.len(),
        forall|i: int|
            0 <= i < a.len() ==> if 0xFF10 <= a[i] as u32 <= 0xFF19 {
                '0' <= b[i] <= '9' && (b[i] as u32) + 0xFEE0 == a[i] as u32
            } else {
                b[i] == a[i]
            },
        s.tokens_of(a, predicted, tags, n_tags, ma),
        s.tokens_of(b, predicted, tags, n_tags, mb),
    ensures
        engine_text(s.normalizes(), a) == engine_text(s.normalizes(), b),
        ma.spans == mb.spans,
        ma.tags == mb.tags,
        forall|k: int| 0 <= k < ma.spans.len() ==> #[trigger] ma.surfaces[k] == a.subrange(ma.spans[k].0, ma.spans[k].1),
        forall|k: int| 0 <= k < mb.spans.len() ==> #[trigger] mb.surfaces[k] == b.subrange(mb.spans[k].0, mb.spans[k].1),
{
    assert forall|i: int| 0 <= i < a.len() implies fullwidth_char(a[i]) == fullwidth_char(b[i]) by {
        if 0xFF10 <= a[i] as u32 <= 0xFF19 {
            assert(fullwidth_char(b[i]) as u32 == a[i] as u32);
        }
    }
    assert(fullwidth_of(a) =~= fullwidth_of(b));
    lemma_normalized_texts_split_alike(s, a, b, predicted, tags, n_tags, ma, mb);
}

/// A tag seen in one call stays in the tag cache for every later call: after
/// `tokenize_outcome` the cache holds every tag of the result and every tag it held before.
pub proof fn lemma_tags_stay_interned(before: Set<Seq<char>>, after: Set<Seq<char>>, tags: Seq<Option<Seq<char>>>, i: int)
    requires
        after == before.union(tag_texts(tags)),
        0 <= i < tags.len(),
        tags[i] is Some,
    ensures
        after.contains(tags[i]->Some_0),
        before.subset_of(after),
{
    assert(tag_texts(tags).contains(tags[i]->Some_0));
}

} // verus!
