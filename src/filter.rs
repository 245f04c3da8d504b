use vstd::prelude::*;

use crate::engine::{char_type, char_type_of, chars_of, grapheme_joins, grapheme_joins_of, engine_accepts};

verus! {

/// Character classes recognised by the boundary-constraint filters.
#[derive(Clone, Copy, Debug, PartialEq, Eq, Structural)]
pub enum CharClass {
    Digit,
    Roman,
    Hiragana,
    Katakana,
    Kanji,
    Other,
}

/// A post-filter on the boundary array.
#[derive(Clone, Copy, Debug, PartialEq, Eq, Structural)]
pub enum Filter {
    /// No boundary between two adjacent characters of this class.
    WsConst(CharClass),
    /// No boundary inside a grapheme cluster.
    GraphemeClusters,
}

/// The filter that a configuration character stands for, if any.
pub open spec fn filter_code(c: char) -> Option<Filter> {
    if c == 'D' {
        Some(Filter::WsConst(CharClass::Digit))
    } else if c == 'R' {
        Some(Filter::WsConst(CharClass::Roman))
    } else if c == 'H' {
        Some(Filter::WsConst(CharClass::Hiragana))
    } else if c == 'T' {
        Some(Filter::WsConst(CharClass::Katakana))
    } else if c == 'K' {
        Some(Filter::WsConst(CharClass::Kanji))
    } else if c == 'O' {
        Some(Filter::WsConst(CharClass::Other))
    } else if c == 'G' {
        Some(Filter::GraphemeClusters)
    } else {
        None
    }
}

/// Every character of the configuration names a filter.
pub open spec fn valid_config(s: Seq<char>) -> bool {
    forall|i: int| 0 <= i < s.len() ==> (#[trigger] filter_code(s[i])) is Some
}

/// `c` is the first character of `s` that names no filter.
pub open spec fn first_invalid(s: Seq<char>, c: char) -> bool {
    exists|i: int|
        0 <= i < s.len() && s[i] == c && filter_code(s[i]) is None && valid_config(s.take(i))
}

fn filter_of(c: char) -> (r: Option<Filter>)
    ensures
        r == filter_code(c),
{
    match c {
        'D' => Some(Filter::WsConst(CharClass::Digit)),
        'R' => Some(Filter::WsConst(CharClass::Roman)),
        'H' => Some(Filter::WsConst(CharClass::Hiragana)),
        'T' => Some(Filter::WsConst(CharClass::Katakana)),
        'K' => Some(Filter::WsConst(CharClass::Kanji)),
        'O' => Some(Filter::WsConst(CharClass::Other)),
        'G' => Some(Filter::GraphemeClusters),
        _ => None,
    }
}

/// Parses a configuration string into its filters, in order, or returns the first
/// character that names none.
pub fn parse_wsconst(s: &str) -> (r: Result<Vec<Filter>, char>)
    ensures
        r is Ok <==> valid_config(s@),
        r is Ok ==> r->Ok_0@ == s@.map_values(|c: char| filter_code(c)->Some_0),
        r is Err ==> first_invalid(s@, r->Err_0),
{
    let cs = chars_of(s);
    let mut out: Vec<Filter> = Vec::new();
    let mut i: usize = 0;
    while i < cs.len()
        invariant
            cs@ == s@,
            i <= cs@.len(),
            valid_config(s@.take(i as int)),
            out@ == s@.take(i as int).map_values(|c: char| filter_code(c)->Some_0),
        decreases cs@.len() - i,
    {
        match filter_of(cs[i]) {
            Some(f) => {
                out.push(f);
                proof {
                    assert(s@.take(i + 1) == s@.take(i as int).push(s@[i as int]));
                }
                i = i + 1;
            },
            None => {
                return Err(cs[i]);
            },
        }
    }
    proof {
        assert(s@.take(i as int) == s@);
    }
    Ok(out)
}

/// The class of each character of `text`.
pub open spec fn classes_of(text: Seq<char>) -> Seq<CharClass> {
    text.map_values(|c: char| char_type_of(c))
}

/// The boundaries after one filter: a filter only removes boundaries.
pub open spec fn apply_filter(f: Filter, b: Seq<bool>, text: Seq<char>) -> Seq<bool> {
    match f {
        Filter::WsConst(t) => Seq::new(
            b.len(),
            |i: int| b[i] && !(char_type_of(text[i]) == t && char_type_of(text[i + 1]) == t),
        ),
        Filter::GraphemeClusters => Seq::new(
            b.len(),
            |i: int| b[i] && !grapheme_joins_of(text)[i],
        ),
    }
}

/// The boundaries after each filter of `fs`, in order.
pub open spec fn apply_filters(fs: Seq<Filter>, b: Seq<bool>, text: Seq<char>) -> Seq<bool>
    decreases fs.len(),
{
    if fs.len() == 0 {
        b
    } else {
        apply_filter(fs.last(), apply_filters(fs.drop_last(), b, text), text)
    }
}

/// Applies one filter in place to the boundaries of `text`.
pub fn run_filter(f: Filter, text: &str, chars: &Vec<char>, b: &mut Vec<bool>)
    requires
        engine_accepts(text@),
        chars@ == text@,
        old(b)@.len() + 1 == text@.len(),
    ensures
        final(b)@ == apply_filter(f, old(b)@, text@),
{
    let n = b.len();
    match f {
        Filter::WsConst(t) => {
            let mut i: usize = 0;
            while i < n
                invariant
                    chars@ == text@,
                    n == b@.len(),
                    n == old(b)@.len(),
                    n + 1 == text@.len(),
                    i <= n,
                    forall|j: int| i <= j < n ==> b@[j] == old(b)@[j],
                    forall|j: int|
                        0 <= j < i ==> b@[j] == (old(b)@[j] && !(char_type_of(text@[j]) == t
                            && char_type_of(text@[j + 1]) == t)),
                decreases n - i,
            {
                let c0 = char_type(chars[i]);
                let c1 = char_type(chars[i + 1]);
                if c0 == t && c1 == t {
                    b.set(i, false);
                }
                i = i + 1;
            }
            assert(b@ =~= apply_filter(f, old(b)@, text@));
        },
        Filter::GraphemeClusters => {
            let joins = grapheme_joins(text);
            let mut i: usize = 0;
            while i < n
                invariant
                    joins@ == grapheme_joins_of(text@),
                    n == b@.len(),
                    n == old(b)@.len(),
                    n == joins@.len(),
                    i <= n,
                    forall|j: int| i <= j < n ==> b@[j] == old(b)@[j],
                    forall|j: int| 0 <= j < i ==> #[trigger] b@[j] == (old(b)@[j] && !joins@[j]),
                decreases n - i,
            {
                let joined: bool = joins[i];
                if joined {
                    b.set(i, false);
                }
                assert(b@[i as int] == (old(b)@[i as int] && !joins@[i as int]));
                i = i + 1;
            }
            assert(b@ =~= apply_filter(f, old(b)@, text@));
        },
    }
}

/// Applies every filter, in order, to the boundaries of `text`.
pub fn run_filters(fs: &Vec<Filter>, text: &str, chars: &Vec<char>, b: &mut Vec<bool>)
    requires
        engine_accepts(text@),
        chars@ == text@,
        old(b)@.len() + 1 == text@.len(),
    ensures
        final(b)@ == apply_filters(fs@, old(b)@, text@),
{
    let ghost b0 = b@;
    let mut k: usize = 0;
    while k < fs.len()
        invariant
            engine_accepts(text@),
            chars@ == text@,
            k <= fs@.len(),
            b@.len() + 1 == text@.len(),
            b@ == apply_filters(fs@.take(k as int), b0, text@),
        decreases fs@.len() - k,
    {
        proof {
            assert(fs@.take(k + 1).drop_last() == fs@.take(k as int));
        }
        run_filter(fs[k], text, chars, b);
        k = k + 1;
    }
    proof {
        assert(fs@.take(k as int) == fs@);
    }
}

/// Filters keep the length of the boundary array.
pub proof fn lemma_filters_len(fs: Seq<Filter>, b: Seq<bool>, text: Seq<char>)
    ensures
        apply_filters(fs, b, text).len() == b.len(),
    decreases fs.len(),
{
    if fs.len() > 0 {
        lemma_filters_len(fs.drop_last(), b, text);
    }
}

/// Once the filter for a class has run, no boundary remains between two adjacent
/// characters of that class, whatever runs before or after it.
pub proof fn lemma_wsconst_holds(fs: Seq<Filter>, b: Seq<bool>, text: Seq<char>, t: CharClass, i: int)
    requires
        fs.contains(Filter::WsConst(t)),
        0 <= i < b.len(),
        char_type_of(text[i]) == t,
        char_type_of(text[i + 1]) == t,
    ensures
        !apply_filters(fs, b, text)[i],
    decreases fs.len(),
{
    lemma_filters_len(fs, b, text);
    if fs.last() == Filter::WsConst(t) {
        lemma_filters_len(fs.drop_last(), b, text);
    } else {
        let k = choose|k: int| 0 <= k < fs.len() && fs[k] == Filter::WsConst(t);
        assert(fs.drop_last()[k] == Filter::WsConst(t));
        lemma_wsconst_holds(fs.drop_last(), b, text, t, i);
        lemma_filters_len(fs.drop_last(), b, text);
    }
}

} // verus!
