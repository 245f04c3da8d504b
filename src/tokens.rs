use vstd::prelude::*;

use std::rc::Rc;

use crate::engine::{chars_of, string_of};
use crate::render::{append, debug_quoted, repr_of, tag_row};
use crate::interner::{cache_contents, share, StringCache};

verus! {

/// An index outside the valid range `0..len`.
#[derive(Clone, Copy, Debug, PartialEq, Eq, Structural)]
pub struct IndexError {
    pub index: usize,
    pub len: usize,
}

/// What a token list holds: each token's character span and surface, the flattened tag
/// table (row `end - 1` belongs to the token ending at `end`), and the number of tag slots.
pub struct TokenListModel {
    pub spans: Seq<(int, int)>,
    pub surfaces: Seq<Seq<char>>,
    pub tags: Seq<Option<Seq<char>>>,
    pub n_tags: nat,
}

/// `spans` cut `0..b.len() + 1` into non-empty, contiguous pieces, in order, that end
/// exactly at the gaps where `b` holds.
pub open spec fn spans_follow(spans: Seq<(int, int)>, b: Seq<bool>) -> bool {
    &&& spans.len() > 0
    &&& spans[0].0 == 0
    &&& spans.last().1 == b.len() + 1
    &&& forall|k: int| 0 <= k < spans.len() ==> #[trigger] spans[k].0 < spans[k].1
    &&& forall|k: int| 0 <= k < spans.len() - 1 ==> #[trigger] spans[k].1 == spans[k + 1].0
    &&& forall|k: int| 0 <= k < spans.len() - 1 ==> b[#[trigger] spans[k].1 - 1]
    &&& forall|k: int, i: int|
        #![trigger spans[k], b[i]]
        0 <= k < spans.len() && spans[k].0 <= i < spans[k].1 - 1 ==> !b[i]
}

/// The token list that the gaps `b` of `text` and the tag table `tags` describe.
pub open spec fn describes(
    m: TokenListModel,
    text: Seq<char>,
    b: Seq<bool>,
    tags: Seq<Option<Seq<char>>>,
    n_tags: nat,
) -> bool {
    &&& spans_follow(m.spans, b)
    &&& m.surfaces.len() == m.spans.len()
    &&& forall|k: int|
        0 <= k < m.spans.len() ==> #[trigger] m.surfaces[k] == text.subrange(
            m.spans[k].0,
            m.spans[k].1,
        )
    &&& m.tags == tags
    &&& m.n_tags == n_tags
}

/// The empty token list.
pub open spec fn empty_model() -> TokenListModel {
    TokenListModel { spans: Seq::empty(), surfaces: Seq::empty(), tags: Seq::empty(), n_tags: 0 }
}

/// The text of one tag slot.
pub open spec fn tag_view(t: Option<Rc<String>>) -> Option<Seq<char>> {
    if t is Some {
        Some(t->Some_0@)
    } else {
        None
    }
}

/// The texts of a tag table.
pub open spec fn tag_views(tags: Seq<Option<Rc<String>>>) -> Seq<Option<Seq<char>>> {
    tags.map_values(|t: Option<Rc<String>>| tag_view(t))
}

/// The texts of a tag table as the engine hands it over.
pub open spec fn engine_tag_views(tags: Seq<Option<String>>) -> Seq<Option<Seq<char>>> {
    tags.map_values(|t: Option<String>| if t is Some { Some(t->Some_0@) } else { None })
}

/// The texts that a tag table holds.
pub open spec fn tag_texts(tags: Seq<Option<Seq<char>>>) -> Set<Seq<char>> {
    Set::new(|s: Seq<char>| exists|i: int| 0 <= i < tags.len() && tags[i] == Some(s))
}

/// Splits the gaps `b` of a text of `b.len() + 1` characters into token spans.
pub fn split_spans(b: &Vec<bool>) -> (r: Vec<(usize, usize)>)
    requires
        b@.len() + 1 <= usize::MAX,
    ensures
        spans_follow(r@.map_values(|s: (usize, usize)| (s.0 as int, s.1 as int)), b@),
{
    let n = b.len();
    let mut out: Vec<(usize, usize)> = Vec::new();
    let mut start: usize = 0;
    let mut i: usize = 0;
    while i < n
        invariant
            n == b@.len(),
            n + 1 <= usize::MAX,
            start <= i <= n,
            out@.len() == 0 ==> start == 0,
            out@.len() > 0 ==> out@[0].0 == 0 && out@.last().1 == start,
            forall|k: int| 0 <= k < out@.len() ==> #[trigger] out@[k].0 < out@[k].1,
            forall|k: int| 0 <= k < out@.len() - 1 ==> #[trigger] out@[k].1 == out@[k + 1].0,
            forall|k: int| 0 <= k < out@.len() ==> b@[#[trigger] out@[k].1 - 1],
            forall|k: int, j: int|
                #![trigger out@[k], b@[j]]
                0 <= k < out@.len() && out@[k].0 <= j < out@[k].1 - 1 ==> !b@[j],
            forall|j: int| start <= j < i ==> !b@[j],
        decreases n - i,
    {
        if b[i] {
            out.push((start, i + 1));
            start = i + 1;
        }
        i = i + 1;
    }
    out.push((start, n + 1));
    let ghost sp = out@.map_values(|s: (usize, usize)| (s.0 as int, s.1 as int));
    assert(forall|k: int| 0 <= k < out@.len() ==> sp[k] == (out@[k].0 as int, out@[k].1 as int));
    assert(forall|k: int, j: int|
        #![trigger sp[k], b@[j]]
        0 <= k < sp.len() && sp[k].0 <= j < sp[k].1 - 1 ==> !b@[j]) by {
        assert forall|k: int, j: int|
            #![trigger sp[k], b@[j]]
            0 <= k < sp.len() && sp[k].0 <= j < sp[k].1 - 1 implies !b@[j] by {
            assert(out@[k].0 <= j < out@[k].1 - 1);
        }
    }
    out
}


/// Spans that follow some gaps stay inside the text.
pub proof fn lemma_spans_bounded(spans: Seq<(int, int)>, b: Seq<bool>, k: int)
    requires
        spans_follow(spans, b),
        0 <= k < spans.len(),
    ensures
        0 <= spans[k].0,
        spans[k].1 <= b.len() + 1,
    decreases spans.len() - k,
{
    lemma_spans_start(spans, b, k);
    if k < spans.len() - 1 {
        lemma_spans_bounded(spans, b, k + 1);
    }
}

proof fn lemma_spans_start(spans: Seq<(int, int)>, b: Seq<bool>, k: int)
    requires
        spans_follow(spans, b),
        0 <= k < spans.len(),
    ensures
        0 <= spans[k].0,
    decreases k,
{
    if k > 0 {
        lemma_spans_start(spans, b, k - 1);
        assert(spans[k - 1].1 == spans[k].0);
    }
}

proof fn lemma_spans_agree(s1: Seq<(int, int)>, s2: Seq<(int, int)>, b: Seq<bool>, k: int)
    requires
        spans_follow(s1, b),
        spans_follow(s2, b),
        0 <= k < s1.len(),
        k < s2.len(),
    ensures
        s1[k] == s2[k],
    decreases k,
{
    if k > 0 {
        lemma_spans_agree(s1, s2, b, k - 1);
        assert(s1[k - 1].1 == s1[k].0);
        assert(s2[k - 1].1 == s2[k].0);
    }
    lemma_spans_bounded(s1, b, k);
    lemma_spans_bounded(s2, b, k);
    let a = s1[k].0;
    let e1 = s1[k].1;
    let e2 = s2[k].1;
    assert(s1[k].0 < s1[k].1);
    assert(s2[k].0 < s2[k].1);
    if e1 < e2 {
        assert(!b[e1 - 1]) by {
            assert(s2[k].0 <= e1 - 1 < s2[k].1 - 1);
        }
        if k < s1.len() - 1 {
            assert(b[s1[k].1 - 1]);
        }
    }
    if e2 < e1 {
        assert(!b[e2 - 1]) by {
            assert(s1[k].0 <= e2 - 1 < s1[k].1 - 1);
        }
        if k < s2.len() - 1 {
            assert(b[s2[k].1 - 1]);
        }
    }
}

/// The gaps of a text determine its spans: two span sequences that follow the same gaps
/// are equal.
pub proof fn lemma_spans_unique(s1: Seq<(int, int)>, s2: Seq<(int, int)>, b: Seq<bool>)
    requires
        spans_follow(s1, b),
        spans_follow(s2, b),
    ensures
        s1 == s2,
{
    if s1.len() < s2.len() {
        let k = s1.len() - 1;
        lemma_spans_agree(s1, s2, b, k);
        assert(s2[k].1 == s2[k + 1].0);
        assert(s2[k + 1].0 < s2[k + 1].1);
        lemma_spans_bounded(s2, b, k + 1);
    }
    if s2.len() < s1.len() {
        let k = s2.len() - 1;
        lemma_spans_agree(s1, s2, b, k);
        assert(s1[k].1 == s1[k + 1].0);
        assert(s1[k + 1].0 < s1[k + 1].1);
        lemma_spans_bounded(s1, b, k + 1);
    }
    assert forall|k: int| 0 <= k < s1.len() implies s1[k] == s2[k] by {
        lemma_spans_agree(s1, s2, b, k);
    }
    assert(s1 =~= s2);
}

/// The tokens of one call: surfaces with their character spans, and their tags.
pub struct TokenList {
    surfaces: Vec<(Rc<String>, usize, usize)>,
    tags: Vec<Option<Rc<String>>>,
    n_tags: usize,
}

impl View for TokenList {
    type V = TokenListModel;

    closed spec fn view(&self) -> TokenListModel {
        TokenListModel {
            spans: self.surfaces@.map_values(|s: (Rc<String>, usize, usize)| (s.1 as int, s.2 as int)),
            surfaces: self.surfaces@.map_values(|s: (Rc<String>, usize, usize)| s.0@),
            tags: tag_views(self.tags@),
            n_tags: self.n_tags as nat,
        }
    }
}

impl TokenList {
    /// The number of characters that the tokens cover.
    pub closed spec fn n_chars(&self) -> nat {
        if self.surfaces@.len() == 0 {
            0
        } else {
            self.surfaces@.last().2 as nat
        }
    }

    #[verifier::type_invariant]
    spec fn inv(&self) -> bool {
        &&& self.tags@.len() == self.n_tags * self.n_chars()
        &&& forall|k: int|
            0 <= k < self.surfaces@.len() ==> 1 <= #[trigger] self.surfaces@[k].2 <= self.n_chars()
    }

    /// The list with no token and no tag slot.
    pub fn empty() -> (r: TokenList)
        ensures
            r@ == empty_model(),
    {
        let r = TokenList { surfaces: Vec::new(), tags: Vec::new(), n_tags: 0 };
        assert(r@.spans =~= Seq::empty());
        assert(r@.surfaces =~= Seq::empty());
        assert(r@.tags =~= Seq::empty());
        r
    }

    /// Builds the tokens of `text` from its gaps `b` and the engine's tag table. Surfaces
    /// that are dictionary words share the handle stored in `words`; every tag is interned
    /// in `tag_cache`.
    pub fn assemble(
        text: &Vec<char>,
        b: &Vec<bool>,
        engine_tags: &Vec<Option<String>>,
        n_tags: usize,
        words: &StringCache,
        tag_cache: &mut StringCache,
    ) -> (r: TokenList)
        requires
            text@.len() == b@.len() + 1,
            engine_tags@.len() == n_tags * text@.len(),
        ensures
            describes(r@, text@, b@, engine_tag_views(engine_tags@), n_tags as nat),
            cache_contents(*final(tag_cache)) == cache_contents(*old(tag_cache)).union(
                tag_texts(engine_tag_views(engine_tags@)),
            ),
    {
        let n_text = text.len();
        let spans = split_spans(b);
        let ghost sp = spans@.map_values(|s: (usize, usize)| (s.0 as int, s.1 as int));
        proof {
            assert forall|k: int| 0 <= k < spans@.len() implies #[trigger] spans@[k].0 < spans@[k].1
                && spans@[k].1 <= text@.len() by {
                assert(sp[k] == (spans@[k].0 as int, spans@[k].1 as int));
                lemma_spans_bounded(sp, b@, k);
            }
        }
        let mut surfaces: Vec<(Rc<String>, usize, usize)> = Vec::new();
        let mut k: usize = 0;
        while k < spans.len()
            invariant
                k <= spans@.len(),
                text@.len() == b@.len() + 1,
                sp == spans@.map_values(|s: (usize, usize)| (s.0 as int, s.1 as int)),
                forall|j: int| 0 <= j < spans@.len() ==> #[trigger] spans@[j].0 < spans@[j].1
                    && spans@[j].1 <= text@.len(),
                surfaces@.len() == k,
                forall|j: int| 0 <= j < k ==> (#[trigger] surfaces@[j]).1 == spans@[j].0
                    && surfaces@[j].2 == spans@[j].1
                    && surfaces@[j].0@ == text@.subrange(spans@[j].0 as int, spans@[j].1 as int),
            decreases spans@.len() - k,
        {
            let (s, e) = spans[k];
            let mut cs: Vec<char> = Vec::new();
            let mut i: usize = s;
            while i < e
                invariant
                    s <= i <= e,
                    e <= text@.len(),
                    cs@ == text@.subrange(s as int, i as int),
                decreases e - i,
            {
                cs.push(text[i]);
                proof {
                    assert(text@.subrange(s as int, i + 1) == text@.subrange(s as int, i as int).push(text@[i as int]));
                }
                i = i + 1;
            }
            let owned = string_of(cs.as_slice());
            let handle = match words.get(owned.as_str()) {
                Some(h) => h,
                None => Rc::new(owned),
            };
            surfaces.push((handle, s, e));
            k = k + 1;
        }
        let ghost tv = engine_tag_views(engine_tags@);
        let mut tags: Vec<Option<Rc<String>>> = Vec::new();
        let mut i: usize = 0;
        while i < engine_tags.len()
            invariant
                i <= engine_tags@.len(),
                tv == engine_tag_views(engine_tags@),
                tag_views(tags@) == tv.take(i as int),
                cache_contents(*tag_cache) == cache_contents(*old(tag_cache)).union(
                    tag_texts(tv.take(i as int)),
                ),
            decreases engine_tags@.len() - i,
        {
            let ghost before = tv.take(i as int);
            let ghost contents_before = cache_contents(*tag_cache);
            let t = match &engine_tags[i] {
                Some(s) => {
                    let h = tag_cache.intern(s.as_str());
                    assert(tv[i as int] == Some(s@));
                    assert(cache_contents(*tag_cache) == contents_before.insert(s@));
                    Some(h)
                },
                None => {
                    assert(tv[i as int] is None);
                    None
                },
            };
            tags.push(t);
            proof {
                let after = tv.take(i + 1);
                assert(after == before.push(tv[i as int]));
                assert(tag_views(tags@) =~= after);
                assert forall|x: Seq<char>| #[trigger] cache_contents(*tag_cache).contains(x) <==> cache_contents(*old(tag_cache)).union(tag_texts(after)).contains(x) by {
                    if tag_texts(after).contains(x) {
                        let j = choose|j: int| 0 <= j < after.len() && after[j] == Some(x);
                        if j < before.len() {
                            assert(before[j] == Some(x));
                        }
                    }
                    if tag_texts(before).contains(x) {
                        let j = choose|j: int| 0 <= j < before.len() && before[j] == Some(x);
                        assert(after[j] == Some(x));
                    }
                    if tv[i as int] == Some(x) {
                        assert(after[i as int] == Some(x));
                    }
                    if tv[i as int] is Some {
                        assert(cache_contents(*tag_cache) == contents_before.insert(tv[i as int]->Some_0));
                    } else {
                        assert(cache_contents(*tag_cache) == contents_before);
                    }
                }
                assert(cache_contents(*tag_cache) =~= cache_contents(*old(tag_cache)).union(tag_texts(after)));
            }
            i = i + 1;
        }
        proof {
            assert(tv.take(i as int) == tv);
        }
        let r = TokenList { surfaces, tags, n_tags };
        proof {
            assert(r@.spans =~= sp);
            assert(spans@.len() > 0);
            lemma_spans_bounded(sp, b@, spans@.len() - 1);
            assert(sp.last().1 == text@.len());
            assert(r.n_chars() == text@.len());
            assert(r@.surfaces.len() == r@.spans.len());
            assert forall|j: int| 0 <= j < r@.spans.len() implies #[trigger] r@.surfaces[j] == text@.subrange(
                r@.spans[j].0,
                r@.spans[j].1,
            ) by {
                assert(sp[j] == (spans@[j].0 as int, spans@[j].1 as int));
            }
            assert forall|j: int| 0 <= j < r.surfaces@.len() implies 1 <= #[trigger] r.surfaces@[j].2 <= r.n_chars() by {
                assert(sp[j] == (spans@[j].0 as int, spans@[j].1 as int));
                lemma_spans_bounded(sp, b@, j);
                lemma_spans_start(sp, b@, j);
            }
        }
        r
    }
}

impl TokenList {
    /// The number of tokens.
    pub fn len(&self) -> (r: usize)
        ensures
            r == self@.spans.len(),
    {
        self.surfaces.len()
    }

    /// The token at `index`, or an error naming the index and the number of tokens.
    pub fn get(&self, index: usize) -> (r: Result<Token<'_>, IndexError>)
        ensures
            r is Ok <==> index < self@.spans.len(),
            r is Ok ==> r->Ok_0.list_view() == self@ && r->Ok_0.position() == index,
            r is Err ==> r->Err_0 == (IndexError { index, len: self@.spans.len() as usize }),
    {
        if index < self.surfaces.len() {
            Ok(Token { list: self, index })
        } else {
            Err(IndexError { index, len: self.surfaces.len() })
        }
    }

    /// An iterator over the tokens, from the first.
    pub fn iter(&self) -> (r: TokenIterator<'_>)
        ensures
            r.list_view() == self@,
            r.position() == 0,
    {
        TokenIterator { list: self, index: 0, len: self.surfaces.len() }
    }
}

/// One token of a [`TokenList`].
pub struct Token<'a> {
    list: &'a TokenList,
    index: usize,
}

impl<'a> Token<'a> {
    #[verifier::type_invariant]
    spec fn inv(&self) -> bool {
        self.index < self.list.surfaces@.len()
    }

    /// What the list this token belongs to holds.
    pub closed spec fn list_view(&self) -> TokenListModel {
        self.list@
    }

    /// The index of this token in its list.
    pub closed spec fn position(&self) -> int {
        self.index as int
    }

    /// The surface of this token.
    pub fn surface(&self) -> (r: Rc<String>)
        ensures
            r@ == self.list_view().surfaces[self.position()],
    {
        proof { use_type_invariant(self); }
        share(&self.list.surfaces[self.index].0)
    }

    /// The start of this token, in characters, inclusive.
    pub fn start(&self) -> (r: usize)
        ensures
            r == self.list_view().spans[self.position()].0,
    {
        proof { use_type_invariant(self); }
        self.list.surfaces[self.index].1
    }

    /// The end of this token, in characters, exclusive.
    pub fn end(&self) -> (r: usize)
        ensures
            r == self.list_view().spans[self.position()].1,
    {
        proof { use_type_invariant(self); }
        self.list.surfaces[self.index].2
    }

    /// The number of tag slots.
    pub fn n_tags(&self) -> (r: usize)
        ensures
            r == self.list_view().n_tags,
    {
        self.list.n_tags
    }

    /// The token written as `Token { surface: "…", tags: [...] }`, each tag quoted or
    /// `None`.
    pub fn repr(&self) -> (r: String)
        ensures
            r@ == repr_of(
                self.list_view().surfaces[self.position()],
                tag_row(self.list_view(), self.list_view().spans[self.position()].1),
            ),
    {
        proof {
            use_type_invariant(self);
            use_type_invariant(self.list);
        }
        let list = self.list;
        let ghost m = list@;
        let ghost k = self.index as int;
        let (surface, _, end) = (&list.surfaces[self.index].0, list.surfaces[self.index].1, list.surfaces[self.index].2);
        let n = list.n_tags;
        let table_len = list.tags.len();
        proof {
            let c = list.n_chars() as int;
            assert(end <= c);
            assert((end - 1) * n + n <= table_len) by (nonlinear_arith)
                requires end <= c, table_len == n * c, end >= 1;
            assert(0 <= (end - 1) * n) by (nonlinear_arith)
                requires end >= 1;
            assert((end - 1) * n + n == end * n) by (nonlinear_arith);
        }
        let row_start = (end - 1) * n;
        let ghost row = tag_row(m, end as int);
        let mut out: Vec<char> = chars_of("Token { surface: ");
        append(&mut out, &debug_quoted(surface.as_str()));
        append(&mut out, &chars_of(", tags: ["));
        let ghost head = out@;
        let mut j: usize = 0;
        while j < n
            invariant
                j <= n,
                row_start + n <= table_len,
                table_len == list.tags@.len(),
                m == list@,
                row == m.tags.subrange(row_start as int, row_start + n),
                out@ == head + crate::render::repr_slots(row.take(j as int)),
            decreases n - j,
        {
            if j != 0 {
                append(&mut out, &chars_of(", "));
            }
            match &list.tags[row_start + j] {
                Some(t) => append(&mut out, &debug_quoted(t.as_str())),
                None => append(&mut out, &chars_of("None")),
            }
            proof {
                let t = row.take(j + 1);
                assert(t.drop_last() == row.take(j as int));
                assert(t.last() == m.tags[row_start + j]);
                assert(m.tags[row_start + j] == tag_view(list.tags@[row_start + j]));
                assert(out@ =~= head + crate::render::repr_slots(t));
            }
            j = j + 1;
        }
        append(&mut out, &chars_of("] }"));
        proof {
            assert(row.take(n as int) == row);
            assert(m.surfaces[k] == surface@);
            assert(m.spans[k].1 == end);
            assert(out@ =~= repr_of(m.surfaces[k], row));
        }
        string_of(out.as_slice())
    }

    /// The tag in slot `index`, or an error naming the index and the number of slots.
    pub fn tag(&self, index: usize) -> (r: Result<Option<Rc<String>>, IndexError>)
        ensures
            r is Ok <==> index < self.list_view().n_tags,
            r is Ok ==> tag_view(r->Ok_0) == self.list_view().tags[(self.list_view().spans[self.position()].1 - 1)
                * self.list_view().n_tags + index],
            r is Err ==> r->Err_0 == (IndexError { index, len: self.list_view().n_tags as usize }),
    {
        proof {
            use_type_invariant(self);
            use_type_invariant(self.list);
        }
        let list = self.list;
        if index < list.n_tags {
            let pos = list.surfaces[self.index].2 - 1;
            let table_len = list.tags.len();
            proof {
                let n = list.n_tags as int;
                let c = list.n_chars() as int;
                assert(pos < c);
                assert(pos * n + index < c * n) by (nonlinear_arith)
                    requires pos < c, index < n, 0 <= pos;
                assert(c * n == n * c) by (nonlinear_arith);
                assert(pos * n + index < table_len);
                assert(pos * n <= pos * n + index);
            }
            let slot = pos * list.n_tags + index;
            let t = match &list.tags[slot] {
                Some(h) => Some(share(h)),
                None => None,
            };
            Ok(t)
        } else {
            Err(IndexError { index, len: list.n_tags })
        }
    }
}

/// Walks the tokens of a [`TokenList`] in order.
pub struct TokenIterator<'a> {
    list: &'a TokenList,
    index: usize,
    len: usize,
}

impl<'a> TokenIterator<'a> {
    #[verifier::type_invariant]
    spec fn inv(&self) -> bool {
        self.len == self.list.surfaces@.len()
    }

    /// What the walked list holds.
    pub closed spec fn list_view(&self) -> TokenListModel {
        self.list@
    }

    /// The index of the next token.
    pub closed spec fn position(&self) -> int {
        self.index as int
    }

    /// The next token, if any is left.
    pub fn next(&mut self) -> (r: Option<Token<'a>>)
        ensures
            final(self).list_view() == old(self).list_view(),
            old(self).position() < old(self).list_view().spans.len() ==> r is Some
                && r->Some_0.list_view() == old(self).list_view()
                && r->Some_0.position() == old(self).position()
                && final(self).position() == old(self).position() + 1,
            old(self).position() >= old(self).list_view().spans.len() ==> r is None
                && final(self).position() == old(self).position(),
    {
        proof { use_type_invariant(&*self); }
        if self.index < self.len {
            let index = self.index;
            self.index = self.index + 1;
            Some(Token { list: self.list, index })
        } else {
            None
        }
    }
}

} // verus!
