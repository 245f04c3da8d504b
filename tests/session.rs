use std::rc::Rc;

use vaporetto::{CharacterBoundary, Sentence};
use vaporetto_session::session::{ConstructionError, Vaporetto};
use vaporetto_session::tokens::{IndexError, TokenList};

/// Runs the engine between the library's steps, as an application does.
fn engine_outcome(s: &Vaporetto, text: &String) -> Option<(Vec<bool>, Vec<Option<String>>, usize)> {
    let seen = s.prepare(text)?;
    let mut sentence = Sentence::from_raw(seen.as_str()).ok()?;
    s.predictor().predict(&mut sentence);
    let predicted: Vec<bool> = sentence
        .boundaries()
        .iter()
        .map(|b| *b == CharacterBoundary::WordBoundary)
        .collect();
    let n_chars = text.chars().count();
    if predicted.len() + 1 != n_chars {
        return None;
    }
    let gaps = s.filter_gaps(&seen, predicted);
    if !s.predict_tags() {
        return Some((gaps, vec![], 0));
    }
    for (d, b) in sentence.boundaries_mut().iter_mut().zip(&gaps) {
        *d = if *b {
            CharacterBoundary::WordBoundary
        } else {
            CharacterBoundary::NotWordBoundary
        };
    }
    sentence.fill_tags();
    let tags: Vec<Option<String>> = sentence
        .tags()
        .iter()
        .map(|t| t.as_ref().map(|t| t.to_string()))
        .collect();
    let n_tags = sentence.n_tags();
    if tags.len() != n_tags * n_chars {
        return None;
    }
    Some((gaps, tags, n_tags))
}

/// Tokenizes `text`; a text that the engine rejects gives the empty list.
fn tokenize(s: &mut Vaporetto, text: String) -> TokenList {
    match engine_outcome(s, &text) {
        Some((gaps, tags, n_tags)) => s.tokenize_outcome(&text, &gaps, &tags, n_tags),
        None => TokenList::empty(),
    }
}

/// Tokenizes `text` and writes the result as a string; a text that the engine rejects
/// gives the empty string.
fn tokenize_to_string(s: &mut Vaporetto, text: String) -> String {
    match engine_outcome(s, &text) {
        Some((gaps, tags, n_tags)) => s.render_outcome(&text, &gaps, &tags, n_tags),
        None => String::new(),
    }
}

fn varint(out: &mut Vec<u8>, v: u64) {
    if v < 251 {
        out.push(v as u8);
    } else {
        assert!(v < 65536);
        out.push(251);
        out.extend_from_slice(&(v as u16).to_le_bytes());
    }
}

fn zigzag(v: i32) -> u64 {
    ((v << 1) ^ (v >> 31)) as u32 as u64
}

fn put_str(out: &mut Vec<u8>, s: &str) {
    varint(out, s.len() as u64);
    out.extend_from_slice(s.as_bytes());
}

/// A model with no n-gram features: every gap scores `bias`, plus the weights of the
/// dictionary words that cover it.
fn model_bytes(bias: i32, dict: &[(&str, Vec<i32>)], tag_models: &[(&str, Vec<Vec<&str>>)]) -> Vec<u8> {
    let mut out = b"VaporettoTokenizer 0.5.0\n".to_vec();
    varint(&mut out, 0);
    varint(&mut out, 0);
    varint(&mut out, dict.len() as u64);
    for (word, weights) in dict {
        put_str(&mut out, word);
        varint(&mut out, weights.len() as u64);
        for w in weights {
            varint(&mut out, zigzag(*w));
        }
        put_str(&mut out, "");
    }
    varint(&mut out, zigzag(bias));
    out.push(1);
    out.push(1);
    varint(&mut out, tag_models.len() as u64);
    for (token, tags) in tag_models {
        put_str(&mut out, token);
        varint(&mut out, tags.len() as u64);
        for cands in tags {
            varint(&mut out, cands.len() as u64);
            for c in cands {
                put_str(&mut out, c);
            }
        }
        varint(&mut out, 0);
        varint(&mut out, 0);
        varint(&mut out, 0);
    }
    out
}

fn session(bias: i32, dict: &[(&str, Vec<i32>)], predict_tags: bool, wsconst: &str, norm: bool) -> Vaporetto {
    let bytes = (model_bytes(bias, dict, &[]));
    Vaporetto::from_model_bytes(&bytes, predict_tags, wsconst, norm).unwrap()
}

fn tagged_session() -> Vaporetto {
    let bytes = (model_bytes(
        100,
        &[("火星", vec![0, -1000, 0])],
        &[("火星", vec![vec!["名詞"], vec!["カセー"]]), ("猫", vec![vec!["名詞"], vec!["ネコ"]]), ("だ", vec![vec!["助動詞"]])],
    ));
    Vaporetto::from_model_bytes(&bytes, true, "", true).unwrap()
}

fn spans(list: &TokenList) -> Vec<(String, usize, usize)> {
    let mut out = vec![];
    let mut it = list.iter();
    while let Some(t) = it.next() {
        out.push((t.surface().as_str().to_string(), t.start(), t.end()));
    }
    out
}

fn surfaces(list: &TokenList) -> Vec<String> {
    spans(list).into_iter().map(|s| s.0).collect()
}

/// The rendering of a token list, written from its accessors.
fn rebuild(list: &TokenList) -> String {
    fn esc(s: &str) -> String {
        let mut r = String::new();
        for c in s.chars() {
            if c == ' ' || c == '\\' || c == '/' {
                r.push('\\');
            }
            r.push(c);
        }
        r
    }
    let mut parts = vec![];
    for i in 0..list.len() {
        let t = list.get(i).unwrap();
        let mut p = esc(t.surface().as_str());
        let tags: Vec<Option<Rc<String>>> = (0..t.n_tags()).map(|j| t.tag(j).unwrap()).collect();
        for tag in &tags {
            p.push('/');
            if let Some(tag) = tag {
                p.push_str(&esc(tag));
            }
        }
        parts.push(p);
    }
    parts.join(" ")
}

#[test]
fn empty_input_gives_empty_results() {
    let mut s = session(100, &[], false, "", true);
    let list = tokenize(&mut s, String::new());
    assert_eq!(list.len(), 0);
    assert!(list.get(0).is_err());
    assert_eq!(tokenize_to_string(&mut s, String::new()), "");
    let mut t = tagged_session();
    assert_eq!(tokenize(&mut t, String::new()).len(), 0);
    assert_eq!(tokenize_to_string(&mut t, String::new()), "");
}

#[test]
fn text_with_nul_is_rejected() {
    let mut s = session(100, &[], false, "", false);
    assert_eq!(tokenize(&mut s, "a\0b".to_string()).len(), 0);
    assert_eq!(tokenize_to_string(&mut s, "a\0b".to_string()), "");
    // the session stays usable
    assert_eq!(tokenize(&mut s, "ab".to_string()).len(), 2);
}

#[test]
fn positive_bias_splits_every_character() {
    let mut s = session(100, &[], false, "", false);
    let list = tokenize(&mut s, "abc".to_string());
    assert_eq!(
        spans(&list),
        vec![("a".to_string(), 0, 1), ("b".to_string(), 1, 2), ("c".to_string(), 2, 3)]
    );
    assert_eq!(tokenize_to_string(&mut s, "abc".to_string()), "a b c");
}

#[test]
fn negative_bias_keeps_one_token() {
    let mut s = session(-100, &[], false, "", false);
    let list = tokenize(&mut s, "まぁ社長".to_string());
    assert_eq!(spans(&list), vec![("まぁ社長".to_string(), 0, 4)]);
}

#[test]
fn spans_partition_the_text() {
    let mut s = session(100, &[("社長", vec![0, -1000, 0]), ("火星", vec![0, -1000, 0])], false, "", true);
    let text = "まぁ社長は火星猫だ";
    let list = tokenize(&mut s, text.to_string());
    let sp = spans(&list);
    assert_eq!(sp[0].1, 0);
    assert_eq!(sp.last().unwrap().2, text.chars().count());
    for w in sp.windows(2) {
        assert_eq!(w[0].2, w[1].1);
    }
    for (surface, start, end) in &sp {
        assert!(start < end);
        let expected: String = text.chars().skip(*start).take(end - start).collect();
        assert_eq!(*surface, expected);
    }
    assert_eq!(surfaces(&list), vec!["ま", "ぁ", "社長", "は", "火星", "猫", "だ"]);
}

#[test]
fn dictionary_words_share_one_handle() {
    let mut s = session(100, &[("社長", vec![0, -1000, 0])], false, "", false);
    let a = tokenize(&mut s, "社長と社長".to_string());
    let b = tokenize(&mut s, "社長".to_string());
    let first = a.get(0).unwrap().surface();
    let last = a.get(2).unwrap().surface();
    let other = b.get(0).unwrap().surface();
    assert_eq!(first.as_str(), "社長");
    assert!(Rc::ptr_eq(&first, &last));
    assert!(Rc::ptr_eq(&first, &other));
    // a surface outside the dictionary is equal in content
    assert_eq!(a.get(1).unwrap().surface().as_str(), "と");
}

#[test]
fn tags_share_one_handle_across_calls() {
    let mut s = tagged_session();
    let a = tokenize(&mut s, "猫だ".to_string());
    let b = tokenize(&mut s, "火星猫".to_string());
    let t1 = a.get(0).unwrap().tag(0).unwrap().unwrap();
    let t2 = b.get(0).unwrap().tag(0).unwrap().unwrap();
    let t3 = b.get(1).unwrap().tag(0).unwrap().unwrap();
    assert_eq!(t1.as_str(), "名詞");
    assert!(Rc::ptr_eq(&t1, &t2));
    assert!(Rc::ptr_eq(&t1, &t3));
}

#[test]
fn tags_are_predicted_per_token() {
    let mut s = tagged_session();
    let list = tokenize(&mut s, "火星猫だよ".to_string());
    assert_eq!(surfaces(&list), vec!["火星", "猫", "だ", "よ"]);
    let t = list.get(0).unwrap();
    assert_eq!(t.n_tags(), 2);
    assert_eq!(t.tag(0).unwrap().unwrap().as_str(), "名詞");
    assert_eq!(t.tag(1).unwrap().unwrap().as_str(), "カセー");
    let d = list.get(2).unwrap();
    assert_eq!(d.tag(0).unwrap().unwrap().as_str(), "助動詞");
    assert!(d.tag(1).unwrap().is_none());
    assert!(list.get(3).unwrap().tag(0).unwrap().is_none());
    assert_eq!(t.tag(2).unwrap_err(), IndexError { index: 2, len: 2 });
    assert_eq!(tokenize_to_string(&mut s, "火星猫だよ".to_string()), "火星/名詞/カセー 猫/名詞/ネコ だ/助動詞/ よ//");
}

#[test]
fn configuration_is_idempotent() {
    let bytes = (model_bytes(100, &[("社長", vec![0, -1000, 0])], &[]));
    let mut a = Vaporetto::from_model_bytes(&bytes, false, "D", true).unwrap();
    let mut b = Vaporetto::from_model_bytes(&bytes, false, "D", true).unwrap();
    let text = "社長は2024年に".to_string();
    let la = tokenize(&mut a, text.clone());
    let lb = tokenize(&mut b, text.clone());
    assert_eq!(spans(&la), spans(&lb));
    assert_eq!(tokenize_to_string(&mut a, text.clone()), tokenize_to_string(&mut b, text));
}

#[test]
fn render_matches_token_list() {
    let mut s = tagged_session();
    for text in ["火星猫だ", "猫 だ/よ", "a\\b", "x"] {
        let list = tokenize(&mut s, text.to_string());
        assert_eq!(tokenize_to_string(&mut s, text.to_string()), rebuild(&list));
    }
    let mut plain = session(100, &[], false, "", false);
    assert_eq!(tokenize_to_string(&mut plain, "a b/c\\".to_string()), "a \\  b \\/ c \\\\");
}

#[test]
fn tag_out_of_range_without_tag_prediction() {
    let mut s = session(100, &[], false, "", true);
    let list = tokenize(&mut s, "ab".to_string());
    let t = list.get(0).unwrap();
    assert_eq!(t.n_tags(), 0);
    assert_eq!(t.tag(0).unwrap_err(), IndexError { index: 0, len: 0 });
}

#[test]
fn token_index_out_of_range() {
    let mut s = session(100, &[], false, "", true);
    let list = tokenize(&mut s, "ab".to_string());
    assert_eq!(list.get(2).err(), Some(IndexError { index: 2, len: 2 }));
    let mut it = list.iter();
    assert!(it.next().is_some());
    assert!(it.next().is_some());
    assert!(it.next().is_none());
    assert!(it.next().is_none());
}

#[test]
fn normalization_keeps_original_surfaces() {
    let mut s = session(100, &[("１２", vec![0, -1000, 0])], false, "", true);
    let half = tokenize(&mut s, "12円".to_string());
    let full = tokenize(&mut s, "１２円".to_string());
    assert_eq!(spans(&half), vec![("12".to_string(), 0, 2), ("円".to_string(), 2, 3)]);
    assert_eq!(spans(&full), vec![("１２".to_string(), 0, 2), ("円".to_string(), 2, 3)]);
    let mut raw = session(100, &[("１２", vec![0, -1000, 0])], false, "", false);
    assert_eq!(surfaces(&tokenize(&mut raw, "12円".to_string())), vec!["1", "2", "円"]);
}

#[test]
fn wsconst_digit_keeps_digit_runs() {
    let mut s = session(100, &[], false, "D", false);
    let list = tokenize(&mut s, "ab2024年8月".to_string());
    assert_eq!(surfaces(&list), vec!["a", "b", "2024", "年", "8", "月"]);
    let mut n = session(100, &[], false, "D", true);
    assert_eq!(surfaces(&tokenize(&mut n, "x１２3y".to_string())), vec!["x", "１２3", "y"]);
}

#[test]
fn wsconst_other_classes() {
    let mut s = session(100, &[], false, "RHTK", false);
    assert_eq!(surfaces(&tokenize(&mut s, "abカナかな漢字1".to_string())), vec!["ab", "カナ", "かな", "漢字", "1"]);
    let mut o = session(100, &[], false, "O", false);
    assert_eq!(surfaces(&tokenize(&mut o, "!?a".to_string())), vec!["!?", "a"]);
}

#[test]
fn wsconst_grapheme_clusters() {
    let mut s = session(100, &[], false, "G", false);
    let list = tokenize(&mut s, "e\u{301}x".to_string());
    assert_eq!(spans(&list), vec![("e\u{301}".to_string(), 0, 2), ("x".to_string(), 2, 3)]);
}

#[test]
fn invalid_wsconst_names_the_character() {
    let bytes = (model_bytes(100, &[], &[]));
    match Vaporetto::from_model_bytes(&bytes, false, "DX", true) {
        Err(e) => assert_eq!(e, ConstructionError::InvalidWsconst('X')),
        Ok(_) => panic!("accepted an invalid configuration"),
    }
    match Vaporetto::from_model_bytes(&bytes, false, "dG", true) {
        Err(e) => assert_eq!(e, ConstructionError::InvalidWsconst('d')),
        Ok(_) => panic!("accepted an invalid configuration"),
    }
}

#[test]
fn invalid_model_is_rejected() {
    assert!(matches!(Vaporetto::from_model_bytes(b"not a model", false, "", true), Err(ConstructionError::InvalidModel(_))));
    let wrong = b"VaporettoTokenizer 9.9.9\n\0\0\0";
    assert!(matches!(Vaporetto::from_model_bytes(wrong, false, "", true), Err(ConstructionError::InvalidModel(_))));
    let truncated = model_bytes(100, &[("社長", vec![0, -1000, 0])], &[]);
    assert!(matches!(Vaporetto::from_model_bytes(&truncated[..30], false, "", true), Err(ConstructionError::InvalidModel(_))));
    assert!(matches!(Vaporetto::from_model_bytes(b"Vaporetto", false, "", true), Err(ConstructionError::InvalidModel(_))));
    // a bad model is reported before a bad configuration
    assert!(matches!(Vaporetto::from_model_bytes(b"not a model", false, "X", true), Err(ConstructionError::InvalidModel(_))));
}


#[test]
fn repr_lists_quoted_tags() {
    let mut s = tagged_session();
    let list = tokenize(&mut s, "猫だよ".to_string());
    assert_eq!(list.get(0).unwrap().repr(), "Token { surface: \"猫\", tags: [\"名詞\", \"ネコ\"] }");
    assert_eq!(list.get(1).unwrap().repr(), "Token { surface: \"だ\", tags: [\"助動詞\", None] }");
    assert_eq!(list.get(2).unwrap().repr(), "Token { surface: \"よ\", tags: [None, None] }");
}

#[test]
fn repr_without_tags_escapes_the_surface() {
    let mut s = session(100, &[], false, "", false);
    let list = tokenize(&mut s, "\"a".to_string());
    assert_eq!(list.get(0).unwrap().repr(), "Token { surface: \"\\\"\", tags: [] }");
    assert_eq!(list.get(1).unwrap().repr(), "Token { surface: \"a\", tags: [] }");
}

#[test]
fn uncompressed_model_builds_a_session() {
    let bytes = model_bytes(100, &[("社長", vec![0, -1000, 0])], &[]);
    let mut s = Vaporetto::from_model_bytes(&bytes, false, "", false).unwrap();
    assert_eq!(tokenize_to_string(&mut s, "社長だ".to_string()), "社長 だ");
    match Vaporetto::from_model_bytes(&bytes, false, "DRX", false) {
        Err(e) => assert_eq!(e, ConstructionError::InvalidWsconst('X')),
        Ok(_) => panic!("accepted an invalid configuration"),
    }
}

#[test]
fn empty_tag_slots_render_as_empty_segments() {
    let mut s = tagged_session();
    assert_eq!(tokenize_to_string(&mut s, "だ".to_string()), "だ/助動詞/");
    assert_eq!(tokenize_to_string(&mut s, "よ".to_string()), "よ//");
}
