use vstd::prelude::*;

use crate::tokens::{engine_tag_views, TokenListModel};

verus! {

/// A character as written: space, backslash and slash get a backslash before them.
pub open spec fn escape_char(c: char) -> Seq<char> {
    if c == ' ' || c == '\\' || c == '/' {
        seq!['\\', c]
    } else {
        seq![c]
    }
}

/// A text as written, character by character.
pub open spec fn escape(s: Seq<char>) -> Seq<char>
    decreases s.len(),
{
    if s.len() == 0 {
        Seq::empty()
    } else {
        escape(s.drop_last()) + escape_char(s.last())
    }
}

/// Tag slots as written: each one as a slash followed by its escaped text, if any.
pub open spec fn render_slots(row: Seq<Option<Seq<char>>>) -> Seq<char>
    decreases row.len(),
{
    if row.len() == 0 {
        Seq::empty()
    } else {
        render_slots(row.drop_last()) + seq!['/'] + if row.last() is Some {
            escape(row.last()->Some_0)
        } else {
            Seq::empty()
        }
    }
}

/// The tag slots of the token that ends at `end`.
pub open spec fn tag_row(m: TokenListModel, end: int) -> Seq<Option<Seq<char>>> {
    m.tags.subrange((end - 1) * m.n_tags, end * m.n_tags)
}

/// One token as written: its escaped surface, then each of its tag slots, an empty one
/// as an empty segment.
pub open spec fn render_token(m: TokenListModel, k: int) -> Seq<char> {
    escape(m.surfaces[k]) + render_slots(tag_row(m, m.spans[k].1))
}

/// The first `k` tokens as written, separated by single spaces.
pub open spec fn render_prefix(m: TokenListModel, k: int) -> Seq<char>
    decreases k,
{
    if k <= 0 {
        Seq::empty()
    } else if k == 1 {
        render_token(m, 0)
    } else {
        render_prefix(m, k - 1) + seq![' '] + render_token(m, k - 1)
    }
}

/// A token list as written.
pub open spec fn render_model(m: TokenListModel) -> Seq<char> {
    render_prefix(m, m.spans.len() as int)
}

/// A text as `Debug` writes a `str`: quoted, with escapes.
pub uninterp spec fn debug_quoted_of(s: Seq<char>) -> Seq<char>;

/// Relies on `<str as Debug>::fmt`: the result depends on the characters alone.
#[verifier::external_body]
pub fn debug_quoted(s: &str) -> (r: Vec<char>)
    ensures
        r@ == debug_quoted_of(s@),
{
    format!("{:?}", s).chars().collect()
}

/// Appends `s` to `out`.
pub fn append(out: &mut Vec<char>, s: &Vec<char>)
    ensures
        final(out)@ == old(out)@ + s@,
{
    let ghost base = out@;
    let mut i: usize = 0;
    while i < s.len()
        invariant
            i <= s@.len(),
            out@ == base + s@.take(i as int),
        decreases s@.len() - i,
    {
        out.push(s[i]);
        proof {
            assert(s@.take(i + 1) == s@.take(i as int).push(s@[i as int]));
            assert(out@ =~= base + s@.take(i + 1));
        }
        i = i + 1;
    }
    proof {
        assert(s@.take(i as int) == s@);
    }
}

/// The tag slots of a token as `repr` lists them, separated by `, `.
pub open spec fn repr_slots(row: Seq<Option<Seq<char>>>) -> Seq<char>
    decreases row.len(),
{
    if row.len() == 0 {
        Seq::empty()
    } else {
        repr_slots(row.drop_last()) + (if row.len() > 1 {
            ", "@
        } else {
            Seq::empty()
        }) + (if row.last() is Some {
            debug_quoted_of(row.last()->Some_0)
        } else {
            "None"@
        })
    }
}

/// A token as `repr` writes it.
pub open spec fn repr_of(surface: Seq<char>, row: Seq<Option<Seq<char>>>) -> Seq<char> {
    "Token { surface: "@ + debug_quoted_of(surface) + ", tags: ["@ + repr_slots(row) + "] }"@
}

/// Appends the escaped characters `text[s..e]` to `out`.
fn push_escaped(text: &Vec<char>, s: usize, e: usize, out: &mut Vec<char>)
    requires
        s <= e <= text@.len(),
    ensures
        final(out)@ == old(out)@ + escape(text@.subrange(s as int, e as int)),
{
    let ghost base = out@;
    let mut i: usize = s;
    while i < e
        invariant
            s <= i <= e <= text@.len(),
            out@ == base + escape(text@.subrange(s as int, i as int)),
        decreases e - i,
    {
        let c = text[i];
        proof {
            let sub = text@.subrange(s as int, i + 1);
            assert(sub.drop_last() == text@.subrange(s as int, i as int));
            assert(sub.last() == c);
        }
        if c == ' ' || c == '\\' || c == '/' {
            out.push('\\');
        }
        out.push(c);
        proof {
            let sub = text@.subrange(s as int, i + 1);
            assert(out@ =~= base + escape(sub.drop_last()) + escape_char(c));
        }
        i = i + 1;
    }
}

/// Appends the escaped characters of `t` to `out`.
fn push_escaped_str(t: &String, out: &mut Vec<char>)
    ensures
        final(out)@ == old(out)@ + escape(t@),
{
    let cs = crate::engine::chars_of(t.as_str());
    let n = cs.len();
    push_escaped(&cs, 0, n, out);
    proof {
        assert(cs@.subrange(0, n as int) == t@);
    }
}

/// Writes the tokens of `text` with spans `spans` and the engine's tag table, separated by
/// single spaces, each followed by every one of its tag slots.
pub fn render(
    text: &Vec<char>,
    spans: &Vec<(usize, usize)>,
    tags: &Vec<Option<String>>,
    n_tags: usize,
    out: &mut Vec<char>,
)
    requires
        tags@.len() == n_tags * text@.len(),
        forall|k: int| 0 <= k < spans@.len() ==> #[trigger] spans@[k].0 < spans@[k].1
            && spans@[k].1 <= text@.len(),
    ensures
        final(out)@ == render_model(
            TokenListModel {
                spans: spans@.map_values(|s: (usize, usize)| (s.0 as int, s.1 as int)),
                surfaces: spans@.map_values(|s: (usize, usize)| text@.subrange(s.0 as int, s.1 as int)),
                tags: engine_tag_views(tags@),
                n_tags: n_tags as nat,
            },
        ),
{
    let ghost m = TokenListModel {
        spans: spans@.map_values(|s: (usize, usize)| (s.0 as int, s.1 as int)),
        surfaces: spans@.map_values(|s: (usize, usize)| text@.subrange(s.0 as int, s.1 as int)),
        tags: engine_tag_views(tags@),
        n_tags: n_tags as nat,
    };
    out.clear();
    let table_len = tags.len();
    let mut k: usize = 0;
    while k < spans.len()
        invariant
            k <= spans@.len(),
            tags@.len() == n_tags * text@.len(),
            table_len == tags@.len(),
            forall|j: int| 0 <= j < spans@.len() ==> #[trigger] spans@[j].0 < spans@[j].1
                && spans@[j].1 <= text@.len(),
            m == (TokenListModel {
                spans: spans@.map_values(|s: (usize, usize)| (s.0 as int, s.1 as int)),
                surfaces: spans@.map_values(|s: (usize, usize)| text@.subrange(s.0 as int, s.1 as int)),
                tags: engine_tag_views(tags@),
                n_tags: n_tags as nat,
            }),
            out@ == render_prefix(m, k as int),
        decreases spans@.len() - k,
    {
        let ghost before = out@;
        if k > 0 {
            out.push(' ');
        }
        let (s, e) = spans[k];
        push_escaped(text, s, e, out);
        let ghost with_surface = out@;
        // the slots of this token: row `e - 1` of the table
        proof {
            assert((e - 1) * n_tags + n_tags <= tags@.len()) by (nonlinear_arith)
                requires e <= text@.len(), tags@.len() == n_tags * text@.len(), e >= 1;
            assert(0 <= (e - 1) * n_tags) by (nonlinear_arith)
                requires e >= 1;
        }
        let row_start = (e - 1) * n_tags;
        let ghost row = m.tags.subrange(row_start as int, row_start + n_tags);
        let mut j: usize = 0;
        while j < n_tags
            invariant
                j <= n_tags,
                row_start + n_tags <= tags@.len(),
                table_len == tags@.len(),
                row == m.tags.subrange(row_start as int, row_start + n_tags),
                m.tags == engine_tag_views(tags@),
                out@ == with_surface + render_slots(row.take(j as int)),
            decreases n_tags - j,
        {
            let ghost prev = out@;
            out.push('/');
            match &tags[row_start + j] {
                Some(t) => {
                    push_escaped_str(t, out);
                },
                None => {},
            }
            proof {
                let t = row.take(j + 1);
                assert(t.drop_last() == row.take(j as int));
                assert(t.last() == m.tags[row_start + j]);
                assert(out@ =~= with_surface + render_slots(t));
            }
            j = j + 1;
        }
        proof {
            assert(m.spans[k as int] == (s as int, e as int));
            assert(m.surfaces[k as int] == text@.subrange(s as int, e as int));
            assert(row_start + n_tags == e * n_tags) by (nonlinear_arith)
                requires row_start == (e - 1) * n_tags, e >= 1;
            assert(tag_row(m, e as int) == row);
            assert(row.take(n_tags as int) == row);
            assert(out@ =~= render_prefix(m, k + 1));
        }
        k = k + 1;
    }
}

} // verus!
