//! An alternate index that drops stop words and stems every other token
//! before counting it. It records term counts only; no ranking is defined
//! for it.

use vstd::prelude::*;
use crate::table::{views, unique_keys, has_key, lookup, lemma_lookup_at, lemma_lookup_some,
    lemma_lookup_update, lemma_lookup_push, find_key, bump};

verus! {

/// The English stem of a word.
pub uninterp spec fn english_stem(word: Seq<char>) -> Seq<char>;

/// Relies on `rust_stemmers::Stemmer::stem` with `Algorithm::English`: the
/// stem depends on the word alone.
#[verifier::external_body]
fn stem_english(word: &String) -> (r: String)
    ensures
        r@ == english_stem(word@),
{
    rust_stemmers::Stemmer::create(rust_stemmers::Algorithm::English).stem(word).to_string()
}

pub struct LDA {
    topics: Vec<String>,
    filter: Vec<String>,
    document_term_mat: Vec<(String, Vec<(String, u64)>)>,
}

impl LDA {
    /// The invariant: documents and, per document, terms are unique.
    pub closed spec fn wf(&self) -> bool {
        &&& unique_keys(self.document_term_mat@)
        &&& forall|i: int|
            0 <= i < self.document_term_mat@.len() ==> unique_keys(
                #[trigger] self.document_term_mat@[i].1@,
            )
    }

    /// The stop words.
    pub closed spec fn stop_words(&self) -> Seq<Seq<char>> {
        views(self.filter@)
    }

    pub closed spec fn topic_list(&self) -> Seq<Seq<char>> {
        views(self.topics@)
    }

    pub closed spec fn has_doc(&self, d: Seq<char>) -> bool {
        has_key(self.document_term_mat@, d)
    }

    /// The term table of document `d`; empty when `d` is not indexed.
    pub closed spec fn doc_terms(&self, d: Seq<char>) -> Seq<(String, u64)> {
        match lookup(self.document_term_mat@, d) {
            Some(ts) => ts@,
            None => seq![],
        }
    }

    /// The count recorded for term `t` in document `d`, if any.
    pub closed spec fn count(&self, d: Seq<char>, t: Seq<char>) -> Option<u64> {
        lookup(self.doc_terms(d), t)
    }

    pub fn new(topics: Vec<String>, filter: Vec<String>) -> (r: Self)
        ensures
            r.wf(),
            r.stop_words() == views(filter@),
            r.topic_list() == views(topics@),
            forall|d: Seq<char>| !#[trigger] r.has_doc(d),
            forall|d: Seq<char>, t: Seq<char>| #[trigger] r.count(d, t) is None,
    {
        Self { topics, filter, document_term_mat: Vec::new() }
    }

    /// `Some(token)` unless `token` is a stop word.
    pub fn remove_stop_words<'a>(&'a self, token: &'a String) -> (r: Option<&'a String>)
        ensures
            r is Some <==> !self.stop_words().contains(token@),
            r is Some ==> r->0 == token,
    {
        let mut i: usize = 0;
        while i < self.filter.len()
            invariant
                i <= self.filter@.len(),
                forall|j: int| 0 <= j < i ==> self.filter@[j]@ != token@,
            decreases self.filter@.len() - i,
        {
            if self.filter[i] == *token {
                proof {
                    assert(self.stop_words()[i as int] == token@);
                }
                return None;
            }
            i += 1;
        }
        proof {
            assert(!self.stop_words().contains(token@)) by {
                if self.stop_words().contains(token@) {
                    let j = choose|j: int| 0 <= j < self.stop_words().len() && self.stop_words()[j] == token@;
                    assert(self.filter@[j]@ == token@);
                }
            }
        }
        Some(token)
    }

    /// The English stem of `token`.
    pub fn stem_word(&self, token: &String) -> (r: String)
        ensures
            r@ == english_stem(token@),
    {
        stem_english(token)
    }

    /// Counts one occurrence of the (already filtered and stemmed) `term` in
    /// the document at `path`.
    pub fn record_term(&mut self, path: &String, term: String)
        requires
            old(self).wf(),
            forall|c: u64| old(self).count(path@, term@) == Some(c) ==> c < u64::MAX,
        ensures
            final(self).wf(),
            final(self).stop_words() == old(self).stop_words(),
            forall|d: Seq<char>|
                #[trigger] final(self).has_doc(d) == (old(self).has_doc(d) || d == path@),
            forall|d: Seq<char>, t: Seq<char>|
                #[trigger] final(self).count(d, t) == if d == path@ && t == term@ {
                    Some(
                        match old(self).count(d, t) {
                            Some(c) => (c + 1) as u64,
                            None => 1u64,
                        },
                    )
                } else {
                    old(self).count(d, t)
                },
    {
        let ghost g0 = self.document_term_mat@;
        match find_key(&self.document_term_mat, path) {
            Some(i) => {
                proof {
                    lemma_lookup_at(g0, i as int);
                }
                bump(&mut self.document_term_mat[i].1, term);
                proof {
                    let v = self.document_term_mat@[i as int].1;
                    assert(self.document_term_mat@ =~= g0.update(i as int, (g0[i as int].0, v)));
                    assert forall|d: Seq<char>| #[trigger] lookup(self.document_term_mat@, d) == if d == path@ {
                        Some(v)
                    } else {
                        lookup(g0, d)
                    } by {
                        lemma_lookup_update(g0, i as int, v, d);
                        lemma_lookup_some(g0, d);
                        lemma_lookup_some(self.document_term_mat@, d);
                    }
                    assert forall|d: Seq<char>| #[trigger] self.has_doc(d) == (old(self).has_doc(d) || d == path@) by {
                        lemma_lookup_some(g0, d);
                        lemma_lookup_some(self.document_term_mat@, d);
                    }
                    assert forall|j: int| 0 <= j < self.document_term_mat@.len() implies unique_keys(
                        #[trigger] self.document_term_mat@[j].1@) by {
                        if j != i {
                            assert(self.document_term_mat@[j] == g0[j]);
                        }
                    }
                }
            },
            None => {
                let ghost tv = term@;
                let ts = vec![(term, 1u64)];
                self.document_term_mat.push((path.clone(), ts));
                proof {
                    lemma_lookup_some(g0, path@);
                    let e = self.document_term_mat@.last();
                    assert(self.document_term_mat@ =~= g0.push(e));
                    assert(e.1@ =~= seq![e.1@[0]]);
                    assert(e.1@.drop_last() =~= Seq::<(String, u64)>::empty());
                    assert forall|d: Seq<char>| #[trigger] lookup(self.document_term_mat@, d) == if d == path@ {
                        Some(e.1)
                    } else {
                        lookup(g0, d)
                    } by {
                        lemma_lookup_push(g0, e, d);
                    }
                    assert forall|t: Seq<char>| #[trigger] lookup(e.1@, t) == if t == tv { Some(1u64) } else { None } by {
                        assert(lookup(e.1@.drop_last(), t) is None);
                    }
                    assert forall|d: Seq<char>| #[trigger] self.has_doc(d) == (old(self).has_doc(d) || d == path@) by {
                        lemma_lookup_some(g0, d);
                        lemma_lookup_some(self.document_term_mat@, d);
                    }
                    assert forall|j: int| 0 <= j < self.document_term_mat@.len() implies unique_keys(
                        #[trigger] self.document_term_mat@[j].1@) by {
                        if j < g0.len() {
                            assert(self.document_term_mat@[j] == g0[j]);
                        }
                    }
                }
            },
        }
    }

    /// Drops `token` if it is a stop word; otherwise counts one occurrence of
    /// its English stem in the document at `path`.
    pub fn handle_token(&mut self, path: &String, token: String)
        requires
            old(self).wf(),
            forall|t: Seq<char>, c: u64| old(self).count(path@, t) == Some(c) ==> c < u64::MAX,
        ensures
            final(self).wf(),
            old(self).stop_words().contains(token@) ==> *final(self) == *old(self),
            !old(self).stop_words().contains(token@) ==> {
                &&& forall|d: Seq<char>|
                    #[trigger] final(self).has_doc(d) == (old(self).has_doc(d) || d == path@)
                &&& forall|d: Seq<char>, t: Seq<char>|
                    #[trigger] final(self).count(d, t) == if d == path@ && t == english_stem(
                        token@,
                    ) {
                        Some(
                            match old(self).count(d, t) {
                                Some(c) => (c + 1) as u64,
                                None => 1u64,
                            },
                        )
                    } else {
                        old(self).count(d, t)
                    }
            },
    {
        if self.remove_stop_words(&token).is_none() {
            return;
        }
        let stem = self.stem_word(&token);
        self.record_term(path, stem);
    }

    /// Whether the document at `path` is indexed.
    pub fn has_document(&self, path: &String) -> (r: bool)
        requires
            self.wf(),
        ensures
            r == self.has_doc(path@),
    {
        find_key(&self.document_term_mat, path).is_some()
    }

    /// The count recorded for `term` in the document at `path`, if any.
    pub fn get_count(&self, path: &String, term: &String) -> (r: Option<u64>)
        requires
            self.wf(),
        ensures
            r == self.count(path@, term@),
    {
        proof {
            lemma_lookup_some(self.document_term_mat@, path@);
        }
        match find_key(&self.document_term_mat, path) {
            Some(i) => {
                let ghost ts = self.document_term_mat@[i as int].1@;
                proof {
                    lemma_lookup_at(self.document_term_mat@, i as int);
                    lemma_lookup_some(ts, term@);
                }
                match find_key(&self.document_term_mat[i].1, term) {
                    Some(j) => {
                        proof {
                            lemma_lookup_at(ts, j as int);
                        }
                        Some(self.document_term_mat[i].1[j].1)
                    },
                    None => None,
                }
            },
            None => None,
        }
    }
}

} // verus!
