//! The TF-IDF index: per-document term counts and document lengths, and the
//! rational parts of the ranking score.

use vstd::prelude::*;
use crate::table::{
    unique_keys, has_key, lookup, lemma_lookup_at, lemma_lookup_some, lemma_lookup_update,
    lemma_lookup_push, lemma_lookup_insert, lemma_lookup_absent, find_key, check_unique,
};

verus! {

/// Sum of the counts of a document's term table.
pub open spec fn sum_counts(ts: Seq<(String, u64)>) -> nat
    decreases ts.len(),
{
    if ts.len() == 0 {
        0
    } else {
        sum_counts(ts.drop_last()) + ts.last().1 as nat
    }
}

/// A term table as stored: unique terms, none with a zero count, at least one term.
pub open spec fn terms_valid(ts: Seq<(String, u64)>) -> bool {
    &&& unique_keys(ts)
    &&& ts.len() > 0
    &&& forall|j: int| 0 <= j < ts.len() ==> #[trigger] ts[j].1 > 0
}

/// The two tables of an index agree: the same documents in the same order,
/// each document's length equal to the sum of its term counts.
pub open spec fn tables_valid(
    global: Seq<(String, Vec<(String, u64)>)>,
    lengths: Seq<(String, u64)>,
) -> bool {
    &&& global.len() == lengths.len()
    &&& unique_keys(global)
    &&& unique_keys(lengths)
    &&& forall|i: int|
        0 <= i < global.len() ==> {
            &&& #[trigger] global[i].0@ == lengths[i].0@
            &&& terms_valid(global[i].1@)
            &&& lengths[i].1 == sum_counts(global[i].1@)
        }
}

pub proof fn lemma_sum_update(ts: Seq<(String, u64)>, j: int, v: u64)
    requires
        0 <= j < ts.len(),
    ensures
        sum_counts(ts.update(j, (ts[j].0, v))) == sum_counts(ts) - ts[j].1 + v,
    decreases ts.len(),
{
    let u = ts.update(j, (ts[j].0, v));
    if j == ts.len() - 1 {
        assert(u.drop_last() =~= ts.drop_last());
    } else {
        assert(u.drop_last() =~= ts.drop_last().update(j, (ts[j].0, v)));
        lemma_sum_update(ts.drop_last(), j, v);
    }
}

pub proof fn lemma_count_le_sum(ts: Seq<(String, u64)>, j: int)
    requires
        0 <= j < ts.len(),
    ensures
        ts[j].1 <= sum_counts(ts),
    decreases ts.len(),
{
    if j != ts.len() - 1 {
        lemma_count_le_sum(ts.drop_last(), j);
    }
}

/// The rational `num / den`.
#[derive(Clone, Copy, Debug, PartialEq, Eq, Structural)]
pub struct Ratio {
    pub num: u64,
    pub den: u64,
}

/// The ratio whose base-10 logarithm is the inverse document frequency of a
/// term found in `df` of `n` documents: `n / df`, and `1 / 1` (a logarithm
/// of zero) when no document holds the term.
pub open spec fn idf_ratio(n: nat, df: nat) -> (nat, nat) {
    if df == 0 {
        (1, 1)
    } else {
        (n, df)
    }
}

/// The documents of `global` whose term table holds `t`, in table order.
pub open spec fn docs_containing(global: Seq<(String, Vec<(String, u64)>)>, t: Seq<char>) -> Seq<
    Seq<char>,
>
    decreases global.len(),
{
    if global.len() == 0 {
        seq![]
    } else if lookup(global.last().1@, t) is Some {
        docs_containing(global.drop_last(), t).push(global.last().0@)
    } else {
        docs_containing(global.drop_last(), t)
    }
}

/// The two rational factors of one query term's contribution to a
/// document's score: its term frequency and the ratio whose base-10
/// logarithm is its inverse document frequency.
#[derive(Clone, Copy, Debug, PartialEq, Eq, Structural)]
pub struct TermWeight {
    pub tf: Ratio,
    pub idf: Ratio,
}

/// A document with the weights of each query term, in query order. Its score
/// is the sum over the weights of `tf * log10(idf)`.
pub struct DocScore {
    pub path: String,
    pub weights: Vec<TermWeight>,
}

/// Index tables that do not describe a consistent index.
#[derive(Clone, Copy, Debug, PartialEq, Eq, Structural)]
pub struct InvalidIndex;

/// Whether `ts` is a valid term table whose counts sum to `len`.
fn check_terms(ts: &Vec<(String, u64)>, len: u64) -> (r: bool)
    ensures
        r == (terms_valid(ts@) && len == sum_counts(ts@)),
{
    if ts.len() == 0 || !check_unique(ts) {
        return false;
    }
    let mut sum: u64 = 0;
    let mut k: usize = 0;
    while k < ts.len()
        invariant
            k <= ts@.len(),
            sum == sum_counts(ts@.take(k as int)),
            forall|j: int| 0 <= j < k ==> #[trigger] ts@[j].1 > 0,
        decreases ts@.len() - k,
    {
        proof {
            assert(ts@.take(k as int + 1).drop_last() =~= ts@.take(k as int));
        }
        let c = ts[k].1;
        if c == 0 {
            return false;
        }
        if c > u64::MAX - sum {
            proof {
                lemma_sum_prefix(ts@, k as int + 1);
            }
            return false;
        }
        sum = sum + c;
        k += 1;
    }
    proof {
        assert(ts@.take(k as int) =~= ts@);
    }
    sum == len
}

/// A prefix never sums to more than the whole table.
pub proof fn lemma_sum_prefix(ts: Seq<(String, u64)>, k: int)
    requires
        0 <= k <= ts.len(),
    ensures
        sum_counts(ts.take(k)) <= sum_counts(ts),
    decreases ts.len(),
{
    if k < ts.len() {
        assert(ts.drop_last().take(k) =~= ts.take(k));
        lemma_sum_prefix(ts.drop_last(), k);
    } else {
        assert(ts.take(k) =~= ts);
    }
}

/// Entries ordered by non-increasing count.
pub open spec fn by_count_desc(v: Seq<(String, u64)>) -> bool {
    forall|i: int, j: int| 0 <= i < j < v.len() ==> v[i].1 >= v[j].1
}

/// An index ranked by term frequency times inverse document frequency.
pub struct TFIDF {
    global_index: Vec<(String, Vec<(String, u64)>)>,
    terms_per_document: Vec<(String, u64)>,
}

impl TFIDF {
    /// The invariant of the index.
    pub closed spec fn wf(&self) -> bool {
        tables_valid(self.global_index@, self.terms_per_document@)
    }

    /// The document table and the length table.
    pub closed spec fn tables(&self) -> (Seq<(String, Vec<(String, u64)>)>, Seq<(String, u64)>) {
        (self.global_index@, self.terms_per_document@)
    }

    /// The indexed documents, in the order they were first seen.
    pub closed spec fn docs(&self) -> Seq<Seq<char>> {
        self.global_index@.map_values(|e: (String, Vec<(String, u64)>)| e.0@)
    }

    pub closed spec fn has_doc(&self, d: Seq<char>) -> bool {
        has_key(self.global_index@, d)
    }

    /// The term table of document `d`; empty when `d` is not indexed.
    pub closed spec fn doc_terms(&self, d: Seq<char>) -> Seq<(String, u64)> {
        match lookup(self.global_index@, d) {
            Some(ts) => ts@,
            None => seq![],
        }
    }

    /// How often term `t` occurs in document `d`.
    pub closed spec fn count(&self, d: Seq<char>, t: Seq<char>) -> nat {
        match lookup(self.doc_terms(d), t) {
            Some(c) => c as nat,
            None => 0,
        }
    }

    /// The recorded length of document `d`: the occurrences ingested for it.
    pub closed spec fn length(&self, d: Seq<char>) -> nat {
        match lookup(self.terms_per_document@, d) {
            Some(n) => n as nat,
            None => 0,
        }
    }

    /// The number of indexed documents.
    pub closed spec fn num_docs(&self) -> nat {
        self.terms_per_document@.len()
    }

    /// The documents that hold term `t`, in index order.
    pub closed spec fn containing(&self, t: Seq<char>) -> Seq<Seq<char>> {
        docs_containing(self.global_index@, t)
    }

    /// Term frequency of `t` in `d` as a fraction: count over document
    /// length, and `0 / 1` when `t` does not occur in `d`.
    pub open spec fn tf(&self, d: Seq<char>, t: Seq<char>) -> (nat, nat) {
        if self.count(d, t) > 0 {
            (self.count(d, t), self.length(d))
        } else {
            (0, 1)
        }
    }

    /// The ratio whose base-10 logarithm is the inverse document frequency of `t`.
    pub open spec fn idf(&self, t: Seq<char>) -> (nat, nat) {
        idf_ratio(self.num_docs(), self.containing(t).len())
    }

    /// `w` holds, for each term of `q` in order, its term frequency in `d`
    /// and its inverse document frequency ratio.
    pub open spec fn weights_for(&self, d: Seq<char>, q: Seq<Seq<char>>, w: Seq<TermWeight>) -> bool {
        &&& w.len() == q.len()
        &&& forall|k: int|
            0 <= k < q.len() ==> {
                &&& (#[trigger] w[k]).tf.num == self.tf(d, q[k]).0
                &&& w[k].tf.den == self.tf(d, q[k]).1
                &&& w[k].idf.num == self.idf(q[k]).0
                &&& w[k].idf.den == self.idf(q[k]).1
            }
    }

    /// `r` lists every indexed document in index order, each with the
    /// weights of the terms of `q`.
    pub open spec fn ranked(&self, q: Seq<Seq<char>>, r: Seq<DocScore>) -> bool {
        &&& r.len() == self.docs().len()
        &&& forall|i: int|
            0 <= i < r.len() ==> {
                &&& #[trigger] r[i].path@ == self.docs()[i]
                &&& self.weights_for(self.docs()[i], q, r[i].weights@)
            }
    }

    pub fn new() -> (r: Self)
        ensures
            r.wf(),
            r.docs() == Seq::<Seq<char>>::empty(),
            r.num_docs() == 0,
            forall|d: Seq<char>| !#[trigger] r.has_doc(d),
            forall|d: Seq<char>| #[trigger] r.length(d) == 0,
            forall|d: Seq<char>, t: Seq<char>| #[trigger] r.count(d, t) == 0,
    {
        let r = Self { global_index: Vec::new(), terms_per_document: Vec::new() };
        proof {
            assert(r.docs() =~= Seq::<Seq<char>>::empty());
        }
        r
    }

    /// Records one occurrence of `token` in the document at `path`.
    pub fn handle_token(&mut self, path: &String, token: String)
        requires
            old(self).wf(),
            old(self).length(path@) < u64::MAX,
        ensures
            final(self).wf(),
            final(self).docs() == if old(self).has_doc(path@) {
                old(self).docs()
            } else {
                old(self).docs().push(path@)
            },
            forall|d: Seq<char>, t: Seq<char>|
                #[trigger] final(self).count(d, t) == if d == path@ && t == token@ {
                    old(self).count(d, t) + 1
                } else {
                    old(self).count(d, t)
                },
            forall|d: Seq<char>|
                #[trigger] final(self).has_doc(d) == (old(self).has_doc(d) || d == path@),
            forall|d: Seq<char>|
                #[trigger] final(self).length(d) == if d == path@ {
                    old(self).length(d) + 1
                } else {
                    old(self).length(d)
                },
    {
        let ghost tok = token;
        let ghost g0 = self.global_index@;
        let ghost l0 = self.terms_per_document@;
        match find_key(&self.global_index, path) {
            Some(i) => {
                let ghost ts0 = g0[i as int].1@;
                proof {
                    assert(g0[i as int].0@ == l0[i as int].0@);
                    lemma_lookup_at(g0, i as int);
                    lemma_lookup_at(l0, i as int);
                }
                match find_key(&self.global_index[i].1, &token) {
                    Some(j) => {
                        proof {
                            lemma_count_le_sum(ts0, j as int);
                            lemma_lookup_at(ts0, j as int);
                        }
                        let c = self.global_index[i].1[j].1;
                        self.global_index[i].1[j].1 = c + 1;
                        proof {
                            lemma_sum_update(ts0, j as int, (c + 1) as u64);
                            let ts1 = self.global_index@[i as int].1@;
                            assert(ts1 =~= ts0.update(j as int, (ts0[j as int].0, (c + 1) as u64)));
                            assert forall|t: Seq<char>| #[trigger] lookup(ts1, t) == if t == tok@ {
                                Some((old(self).count(path@, t) + 1) as u64)
                            } else {
                                lookup(ts0, t)
                            } by {
                                lemma_lookup_update(ts0, j as int, (c + 1) as u64, t);
                            }
                        }
                    },
                    None => {
                        self.global_index[i].1.push((token, 1));
                        proof {
                            let e = self.global_index@[i as int].1@.last();
                            let ts1 = self.global_index@[i as int].1@;
                            assert(ts1 =~= ts0.push(e));
                            assert(ts0.push(e).drop_last() =~= ts0);
                            lemma_lookup_some(ts0, tok@);
                            assert forall|t: Seq<char>| #[trigger] lookup(ts1, t) == if t == tok@ {
                                Some((old(self).count(path@, t) + 1) as u64)
                            } else {
                                lookup(ts0, t)
                            } by {
                                lemma_lookup_push(ts0, e, t);
                            }
                        }
                    },
                }
                let n = self.terms_per_document[i].1;
                self.terms_per_document[i].1 = n + 1;
                proof {
                    let ts1 = self.global_index@[i as int].1@;
                    assert(self.global_index@ =~= g0.update(i as int, (g0[i as int].0, self.global_index@[i as int].1)));
                    assert(self.terms_per_document@ =~= l0.update(i as int, (l0[i as int].0, (n + 1) as u64)));
                    assert forall|d: Seq<char>| #[trigger] lookup(self.global_index@, d) == if d == path@ {
                        Some(self.global_index@[i as int].1)
                    } else {
                        lookup(g0, d)
                    } by {
                        lemma_lookup_update(g0, i as int, self.global_index@[i as int].1, d);
                    }
                    assert forall|d: Seq<char>| #[trigger] lookup(self.terms_per_document@, d) == if d == path@ {
                        Some((n + 1) as u64)
                    } else {
                        lookup(l0, d)
                    } by {
                        lemma_lookup_update(l0, i as int, (n + 1) as u64, d);
                    }
                    assert(self.docs() =~= old(self).docs());
                    assert forall|d: Seq<char>| #[trigger] self.has_doc(d) == (old(self).has_doc(d) || d == path@) by {
                        lemma_lookup_some(g0, d);
                        lemma_lookup_some(self.global_index@, d);
                    }
                }
            },
            None => {
                proof {
                    lemma_lookup_some(g0, path@);
                    lemma_lookup_some(l0, path@);
                    assert(!has_key(l0, path@)) by {
                        if has_key(l0, path@) {
                            let k = choose|k: int| 0 <= k < l0.len() && l0[k].0@ == path@;
                            assert(g0[k].0@ == l0[k].0@);
                        }
                    }
                }
                self.global_index.push((path.clone(), vec![(token, 1)]));
                self.terms_per_document.push((path.clone(), 1));
                proof {
                    let e = self.global_index@.last();
                    assert(self.global_index@ =~= g0.push(e));
                    assert(self.terms_per_document@ =~= l0.push(self.terms_per_document@.last()));
                    assert forall|d: Seq<char>| #[trigger] lookup(self.global_index@, d) == if d == path@ { Some(e.1) } else { lookup(g0, d) } by {
                        lemma_lookup_push(g0, e, d);
                    }
                    assert forall|d: Seq<char>| #[trigger] lookup(self.terms_per_document@, d) == if d == path@ { Some(1u64) } else { lookup(l0, d) } by {
                        lemma_lookup_push(l0, self.terms_per_document@.last(), d);
                    }
                    let ts1 = e.1@;
                    assert(ts1 =~= seq![(tok, 1u64)]);
                    assert(ts1.drop_last() =~= Seq::<(String, u64)>::empty());
                    assert(sum_counts(ts1.drop_last()) == 0);
                    assert(sum_counts(ts1) == 1);
                    assert(self.docs() =~= old(self).docs().push(path@));
                    assert forall|d: Seq<char>| #[trigger] self.has_doc(d) == (old(self).has_doc(d) || d == path@) by {
                        lemma_lookup_some(g0, d);
                        lemma_lookup_some(self.global_index@, d);
                    }
                    assert forall|t: Seq<char>| #[trigger] lookup(ts1, t) == if t == tok@ { Some(1u64) } else { None } by {
                        assert(lookup(ts1.drop_last(), t) is None);
                    }
                }
            },
        }
    }

    /// The terms of the document at `path` with their counts, most frequent
    /// first; `None` when the document is not indexed.
    pub fn get_file_tokens(&self, path: &String) -> (r: Option<Vec<(String, u64)>>)
        requires
            self.wf(),
        ensures
            r is None <==> !self.has_doc(path@),
            r is Some ==> {
                &&& r->0@.len() == self.doc_terms(path@).len()
                &&& unique_keys(r->0@)
                &&& by_count_desc(r->0@)
                &&& forall|t: Seq<char>| #[trigger] lookup(r->0@, t) == lookup(self.doc_terms(path@), t)
            },
    {
        let i = match find_key(&self.global_index, path) {
            Some(i) => i,
            None => return None,
        };
        proof {
            assert(self.global_index@[i as int].0@ == self.terms_per_document@[i as int].0@);
            lemma_lookup_at(self.global_index@, i as int);
        }
        let ts = &self.global_index[i].1;
        let mut stats: Vec<(String, u64)> = Vec::new();
        let mut k: usize = 0;
        while k < ts.len()
            invariant
                k <= ts@.len(),
                unique_keys(ts@),
                stats@.len() == k,
                unique_keys(stats@),
                by_count_desc(stats@),
                forall|t: Seq<char>| #[trigger] lookup(stats@, t) == lookup(ts@.take(k as int), t),
            decreases ts@.len() - k,
        {
            let e = (ts[k].0.clone(), ts[k].1);
            let ghost pre = ts@.take(k as int);
            proof {
                assert(ts@.take(k as int + 1).drop_last() =~= pre);
                assert(!has_key(pre, e.0@)) by {
                    if has_key(pre, e.0@) {
                        let j = choose|j: int| 0 <= j < pre.len() && pre[j].0@ == e.0@;
                        assert(ts@[j].0@ == ts@[k as int].0@);
                    }
                }
                lemma_lookup_absent(pre, e.0@);
                lemma_lookup_some(stats@, e.0@);
            }
            let mut p: usize = 0;
            while p < stats.len() && stats[p].1 >= e.1
                invariant
                    p <= stats@.len(),
                    forall|a: int| 0 <= a < p ==> stats@[a].1 >= e.1,
                decreases stats@.len() - p,
            {
                p += 1;
            }
            let ghost old_stats = stats@;
            stats.insert(p, e);
            proof {
                assert forall|t: Seq<char>| #[trigger] lookup(stats@, t) == lookup(ts@.take(k as int + 1), t) by {
                    lemma_lookup_insert(old_stats, p as int, e, t);
                }
                lemma_lookup_insert(old_stats, p as int, e, e.0@);
                assert forall|a: int, b: int| 0 <= a < b < stats@.len() implies stats@[a].1 >= stats@[b].1 by {
                    if a < p && b == p {
                    } else if a < p && b > p {
                        assert(stats@[b] == old_stats[b - 1]);
                    } else if a == p {
                        assert(stats@[b] == old_stats[b - 1]);
                    } else if b < p {
                    } else {
                        assert(stats@[a] == old_stats[a - 1]);
                        assert(stats@[b] == old_stats[b - 1]);
                    }
                }
            }
            k += 1;
        }
        proof {
            assert(ts@.take(k as int) =~= ts@);
        }
        Some(stats)
    }

    /// The recorded length of the document at `path`: 0 when it is not indexed.
    pub fn get_document_length(&self, path: &String) -> (r: u64)
        requires
            self.wf(),
        ensures
            r == self.length(path@),
    {
        proof {
            lemma_lookup_some(self.terms_per_document@, path@);
        }
        match find_key(&self.terms_per_document, path) {
            Some(i) => {
                proof {
                    lemma_lookup_at(self.terms_per_document@, i as int);
                }
                self.terms_per_document[i].1
            },
            None => 0,
        }
    }

    /// Term frequency of `term` in the document at `path`.
    pub fn get_term_frequency(&self, term: &String, path: &String) -> (r: Ratio)
        requires
            self.wf(),
        ensures
            r.num == self.tf(path@, term@).0,
            r.den == self.tf(path@, term@).1,
    {
        proof {
            lemma_lookup_some(self.global_index@, path@);
        }
        match find_key(&self.global_index, path) {
            Some(i) => {
                let ghost ts = self.global_index@[i as int].1@;
                proof {
                    assert(self.global_index@[i as int].0@ == self.terms_per_document@[i as int].0@);
                    lemma_lookup_at(self.global_index@, i as int);
                    lemma_lookup_at(self.terms_per_document@, i as int);
                    lemma_lookup_some(ts, term@);
                }
                match find_key(&self.global_index[i].1, term) {
                    Some(j) => {
                        proof {
                            lemma_lookup_at(ts, j as int);
                        }
                        Ratio { num: self.global_index[i].1[j].1, den: self.terms_per_document[i].1 }
                    },
                    None => Ratio { num: 0, den: 1 },
                }
            },
            None => Ratio { num: 0, den: 1 },
        }
    }

    /// The documents that hold `term`, in index order.
    pub fn get_number_docs_with_term(&self, term: &String) -> (r: Vec<String>)
        requires
            self.wf(),
        ensures
            r@.map_values(|p: String| p@) == self.containing(term@),
    {
        let mut r: Vec<String> = Vec::new();
        let mut i: usize = 0;
        while i < self.global_index.len()
            invariant
                self.wf(),
                i <= self.global_index@.len(),
                r@.map_values(|p: String| p@) == docs_containing(
                    self.global_index@.take(i as int),
                    term@,
                ),
            decreases self.global_index@.len() - i,
        {
            let ghost g = self.global_index@.take(i as int + 1);
            proof {
                assert(g.drop_last() =~= self.global_index@.take(i as int));
                assert(self.global_index@[i as int].0@ == self.terms_per_document@[i as int].0@);
                lemma_lookup_some(self.global_index@[i as int].1@, term@);
            }
            let ghost prev = r@;
            if find_key(&self.global_index[i].1, term).is_some() {
                r.push(self.global_index[i].0.clone());
                proof {
                    assert(r@.map_values(|p: String| p@) =~= prev.map_values(|p: String| p@).push(
                        self.global_index@[i as int].0@,
                    ));
                }
            }
            i += 1;
        }
        proof {
            assert(self.global_index@.take(i as int) =~= self.global_index@);
        }
        r
    }

    /// The ratio whose base-10 logarithm is the inverse document frequency of `term`.
    pub fn get_inverse_document_freq(&self, term: &String) -> (r: Ratio)
        requires
            self.wf(),
        ensures
            r.num == self.idf(term@).0,
            r.den == self.idf(term@).1,
    {
        let docs = self.get_number_docs_with_term(term);
        proof {
            assert(docs@.len() == docs@.map_values(|p: String| p@).len());
        }
        if docs.len() == 0 {
            return Ratio { num: 1, den: 1 };
        }
        Ratio { num: self.terms_per_document.len() as u64, den: docs.len() as u64 }
    }

    /// For every indexed document, in index order, the weights of the query
    /// terms in it. Every document is listed, also those that hold no query
    /// term; with no query terms every weight list is empty, so every score is 0.
    pub fn get_tfidf(&self, query_words: &Vec<String>) -> (r: Vec<DocScore>)
        requires
            self.wf(),
        ensures
            self.ranked(query_words@.map_values(|s: String| s@), r@),
    {
        let ghost q = query_words@.map_values(|s: String| s@);
        let mut paths: Vec<DocScore> = Vec::new();
        let mut i: usize = 0;
        while i < self.global_index.len()
            invariant
                self.wf(),
                q == query_words@.map_values(|s: String| s@),
                i <= self.global_index@.len() == self.docs().len(),
                paths@.len() == i,
                forall|a: int|
                    0 <= a < i ==> {
                        &&& #[trigger] paths@[a].path@ == self.docs()[a]
                        &&& self.weights_for(self.docs()[a], q, paths@[a].weights@)
                    },
            decreases self.global_index@.len() - i,
        {
            let path = &self.global_index[i].0;
            proof {
                assert(self.docs()[i as int] == path@);
            }
            let mut weights: Vec<TermWeight> = Vec::new();
            let mut k: usize = 0;
            while k < query_words.len()
                invariant
                    self.wf(),
                    q == query_words@.map_values(|s: String| s@),
                    k <= query_words@.len(),
                    weights@.len() == k,
                    forall|b: int|
                        0 <= b < k ==> {
                            &&& (#[trigger] weights@[b]).tf.num == self.tf(path@, q[b]).0
                            &&& weights@[b].tf.den == self.tf(path@, q[b]).1
                            &&& weights@[b].idf.num == self.idf(q[b]).0
                            &&& weights@[b].idf.den == self.idf(q[b]).1
                        },
                decreases query_words@.len() - k,
            {
                let tf = self.get_term_frequency(&query_words[k], path);
                let idf = self.get_inverse_document_freq(&query_words[k]);
                weights.push(TermWeight { tf, idf });
                k += 1;
            }
            let ghost prev = paths@;
            let ghost w = weights@;
            paths.push(DocScore { path: path.clone(), weights });
            proof {
                assert forall|a: int| 0 <= a < i implies #[trigger] paths@[a] == prev[a] by {}
                assert(paths@[i as int].weights@ == w);
                assert(self.weights_for(self.docs()[i as int], q, w));
            }
            i += 1;
        }
        paths
    }

    /// Hands out the document table and the length table, to be stored.
    pub fn into_tables(self) -> (r: (Vec<(String, Vec<(String, u64)>)>, Vec<(String, u64)>))
        ensures
            r.0@ == self.tables().0,
            r.1@ == self.tables().1,
    {
        (self.global_index, self.terms_per_document)
    }

    /// Rebuilds an index from stored tables. All or nothing: the tables are
    /// taken exactly when they describe a consistent index.
    pub fn from_tables(
        global_index: Vec<(String, Vec<(String, u64)>)>,
        terms_per_document: Vec<(String, u64)>,
    ) -> (r: Result<Self, InvalidIndex>)
        ensures
            r is Ok <==> tables_valid(global_index@, terms_per_document@),
            r is Ok ==> r->Ok_0.wf() && r->Ok_0.tables() == (global_index@, terms_per_document@),
    {
        if global_index.len() != terms_per_document.len() || !check_unique(&global_index)
            || !check_unique(&terms_per_document) {
            return Err(InvalidIndex);
        }
        let mut i: usize = 0;
        while i < global_index.len()
            invariant
                i <= global_index@.len(),
                global_index@.len() == terms_per_document@.len(),
                forall|a: int|
                    #![trigger global_index@[a]]
                    0 <= a < i ==> {
                        &&& global_index@[a].0@ == terms_per_document@[a].0@
                        &&& terms_valid(global_index@[a].1@)
                        &&& terms_per_document@[a].1 == sum_counts(global_index@[a].1@)
                    },
            decreases global_index@.len() - i,
        {
            if !(global_index[i].0 == terms_per_document[i].0) || !check_terms(
                &global_index[i].1,
                terms_per_document[i].1,
            ) {
                proof {
                    assert(!tables_valid(global_index@, terms_per_document@)) by {
                        if tables_valid(global_index@, terms_per_document@) {
                            assert(global_index@[i as int].0@ == terms_per_document@[i as int].0@);
                        }
                    }
                }
                return Err(InvalidIndex);
            }
            i += 1;
        }
        Ok(Self { global_index, terms_per_document })
    }

    /// Every indexed document's recorded length equals the sum of its term
    /// counts, and is positive.
    pub proof fn lemma_length_is_sum(&self, d: Seq<char>)
        requires
            self.wf(),
            self.has_doc(d),
        ensures
            self.length(d) == sum_counts(self.doc_terms(d)),
            self.length(d) > 0,
    {
        let i = choose|i: int| 0 <= i < self.global_index@.len() && self.global_index@[i].0@ == d;
        assert(self.global_index@[i].0@ == self.terms_per_document@[i].0@);
        lemma_lookup_at(self.global_index@, i);
        lemma_lookup_at(self.terms_per_document@, i);
        lemma_count_le_sum(self.global_index@[i].1@, 0);
    }

    /// Term frequency lies between 0 and 1, and is 0 exactly when the term
    /// does not occur in the document.
    pub proof fn lemma_tf_range(&self, d: Seq<char>, t: Seq<char>)
        requires
            self.wf(),
        ensures
            self.tf(d, t).1 > 0,
            self.tf(d, t).0 <= self.tf(d, t).1,
            self.tf(d, t).0 == 0 <==> self.count(d, t) == 0,
    {
        if self.count(d, t) > 0 {
            lemma_lookup_some(self.global_index@, d);
            let i = choose|i: int| 0 <= i < self.global_index@.len() && self.global_index@[i].0@ == d;
            assert(self.global_index@[i].0@ == self.terms_per_document@[i].0@);
            lemma_lookup_at(self.global_index@, i);
            lemma_lookup_at(self.terms_per_document@, i);
            let ts = self.global_index@[i].1@;
            lemma_lookup_some(ts, t);
            let j = choose|j: int| 0 <= j < ts.len() && ts[j].0@ == t;
            lemma_lookup_at(ts, j);
            lemma_count_le_sum(ts, j);
        }
    }

    /// An empty query lists every indexed document with no weights, that is
    /// with score 0.
    pub proof fn lemma_empty_query(&self, r: Seq<DocScore>)
        requires
            self.ranked(Seq::<Seq<char>>::empty(), r),
        ensures
            r.len() == self.docs().len(),
            forall|i: int| 0 <= i < r.len() ==> #[trigger] r[i].weights@.len() == 0,
            forall|i: int| 0 <= i < r.len() ==> #[trigger] r[i].path@ == self.docs()[i],
    {
        assert forall|i: int| 0 <= i < r.len() implies #[trigger] r[i].weights@.len() == 0 by {
            assert(r[i].path@ == self.docs()[i]);
        }
    }

    /// Tables handed out by `into_tables` are always taken back by
    /// `from_tables`, and an index rebuilt from them lists the same documents
    /// and gives every term the same term and inverse document frequencies,
    /// so it answers every query alike.
    pub proof fn lemma_round_trip(&self, loaded: &TFIDF)
        requires
            self.wf(),
            loaded.tables() == self.tables(),
        ensures
            tables_valid(self.tables().0, self.tables().1),
            loaded.wf(),
            loaded.docs() == self.docs(),
            forall|d: Seq<char>, t: Seq<char>| #[trigger] loaded.tf(d, t) == self.tf(d, t),
            forall|t: Seq<char>| #[trigger] loaded.idf(t) == self.idf(t),
    {
    }
}

/// For a fixed number of documents, the inverse document frequency strictly
/// falls as the number of documents holding the term grows (compared as the
/// fractions `n / a` and `n / b`), and a term held by no document gets the
/// ratio `1 / 1`, an inverse document frequency of 0.
pub proof fn lemma_idf_decreasing(n: nat, a: nat, b: nat)
    requires
        n > 0,
        0 < a < b,
    ensures
        idf_ratio(n, a).0 * idf_ratio(n, b).1 > idf_ratio(n, b).0 * idf_ratio(n, a).1,
        idf_ratio(n, 0) == (1nat, 1nat),
{
    assert(n * b > n * a) by (nonlinear_arith)
        requires
            n > 0,
            a < b,
    ;
}

} // verus!
