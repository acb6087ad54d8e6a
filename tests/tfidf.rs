use qsearch::pipeline::{index_text, query};
use qsearch::tfidf::{DocScore, Ratio, TFIDF, InvalidIndex};

fn s(x: &str) -> String {
    String::from(x)
}

fn score(d: &DocScore) -> f64 {
    d.weights
        .iter()
        .map(|w| (w.tf.num as f64 / w.tf.den as f64) * (w.idf.num as f64 / w.idf.den as f64).log10())
        .sum()
}

fn corpus() -> TFIDF {
    let mut idx = TFIDF::new();
    index_text(&mut idx, &s("A"), "the cat sat");
    index_text(&mut idx, &s("B"), "the dog sat");
    idx
}

#[test]
fn ranking_scenario() {
    let idx = corpus();
    let r = query("cat", &idx);
    assert_eq!(r.len(), 2);
    let a = r.iter().find(|d| d.path == "A").unwrap();
    let b = r.iter().find(|d| d.path == "B").unwrap();
    assert!(score(a) > 0.0);
    assert_eq!(score(b), 0.0);
    assert_eq!(a.weights[0].tf, Ratio { num: 1, den: 3 });
    assert_eq!(a.weights[0].idf, Ratio { num: 2, den: 1 });
    assert_eq!(b.weights[0].tf, Ratio { num: 0, den: 1 });
}

#[test]
fn ingestion_scenario() {
    let mut idx = TFIDF::new();
    let p = s("doc");
    idx.handle_token(&p, s("CAT"));
    idx.handle_token(&p, s("CAT"));
    assert_eq!(idx.get_term_frequency(&s("CAT"), &p), Ratio { num: 2, den: 2 });
    assert_eq!(idx.get_document_length(&p), 2);
    assert_eq!(idx.get_file_tokens(&p), Some(vec![(s("CAT"), 2)]));
}

#[test]
fn length_counts_all_occurrences() {
    let mut idx = TFIDF::new();
    index_text(&mut idx, &s("d"), "a b a c a");
    assert_eq!(idx.get_document_length(&s("d")), 5);
    assert_eq!(idx.get_term_frequency(&s("A"), &s("d")), Ratio { num: 3, den: 5 });
}

#[test]
fn empty_query_scores_zero() {
    let idx = corpus();
    let r = idx.get_tfidf(&vec![]);
    assert_eq!(r.len(), 2);
    assert!(r.iter().all(|d| d.weights.is_empty() && score(d) == 0.0));
}

#[test]
fn tf_range_and_absent() {
    let idx = corpus();
    let tf = idx.get_term_frequency(&s("THE"), &s("A"));
    assert!(tf.num <= tf.den && tf.den > 0);
    assert_eq!(idx.get_term_frequency(&s("DOG"), &s("A")), Ratio { num: 0, den: 1 });
    assert_eq!(idx.get_term_frequency(&s("CAT"), &s("nowhere")), Ratio { num: 0, den: 1 });
}

#[test]
fn idf_decreases_with_document_count() {
    let mut idx = TFIDF::new();
    index_text(&mut idx, &s("1"), "x y");
    index_text(&mut idx, &s("2"), "x");
    index_text(&mut idx, &s("3"), "z");
    index_text(&mut idx, &s("4"), "z");
    let one = idx.get_inverse_document_freq(&s("Y"));
    let two = idx.get_inverse_document_freq(&s("X"));
    assert_eq!(one, Ratio { num: 4, den: 1 });
    assert_eq!(two, Ratio { num: 4, den: 2 });
    assert_eq!(idx.get_inverse_document_freq(&s("NONE")), Ratio { num: 1, den: 1 });
    assert!((one.num as f64 / one.den as f64).log10() > (two.num as f64 / two.den as f64).log10());
}

#[test]
fn docs_with_term_in_order() {
    let idx = corpus();
    assert_eq!(idx.get_number_docs_with_term(&s("SAT")), vec![s("A"), s("B")]);
    assert_eq!(idx.get_number_docs_with_term(&s("DOG")), vec![s("B")]);
    assert!(idx.get_number_docs_with_term(&s("COW")).is_empty());
}

#[test]
fn file_tokens_sorted_by_count() {
    let mut idx = TFIDF::new();
    index_text(&mut idx, &s("d"), "b a b c b a");
    let toks = idx.get_file_tokens(&s("d")).unwrap();
    assert_eq!(toks, vec![(s("B"), 3), (s("A"), 2), (s("C"), 1)]);
    assert_eq!(idx.get_file_tokens(&s("missing")), None);
}

#[test]
fn round_trip_answers_alike() {
    let idx = corpus();
    let before: Vec<Vec<_>> = ["cat", "the sat", ""].iter().map(|q| query(q, &idx).iter().map(|d| (d.path.clone(), d.weights.clone())).collect()).collect();
    let (g, l) = idx.into_tables();
    let loaded = TFIDF::from_tables(g, l).unwrap();
    let after: Vec<Vec<_>> = ["cat", "the sat", ""].iter().map(|q| query(q, &loaded).iter().map(|d| (d.path.clone(), d.weights.clone())).collect()).collect();
    assert_eq!(before, after);
}

#[test]
fn load_rejects_inconsistent_tables() {
    let g = vec![(s("A"), vec![(s("X"), 2)])];
    assert!(TFIDF::from_tables(g.clone(), vec![(s("A"), 3)]).err() == Some(InvalidIndex));
    assert!(TFIDF::from_tables(g.clone(), vec![(s("B"), 2)]).is_err());
    assert!(TFIDF::from_tables(g.clone(), vec![]).is_err());
    assert!(TFIDF::from_tables(vec![(s("A"), vec![])], vec![(s("A"), 0)]).is_err());
    assert!(TFIDF::from_tables(vec![(s("A"), vec![(s("X"), 1), (s("X"), 1)])], vec![(s("A"), 2)]).is_err());
    assert!(TFIDF::from_tables(g, vec![(s("A"), 2)]).is_ok());
}

#[test]
fn query_keeps_duplicate_terms() {
    let idx = corpus();
    let r = query("cat cat", &idx);
    assert_eq!(r[0].weights.len(), 2);
}
