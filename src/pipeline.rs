//! The indexing and query pipelines: text is tokenized, each token is
//! upper-cased, and the terms are fed to the index or ranked against it.

use vstd::prelude::*;
use crate::chars::{ascii_upper, char_to_upper, chars_of, string_of};
use crate::lexer::{Lexer, lex, lemma_lex_len};
use crate::tfidf::{TFIDF, DocScore};

verus! {

/// `s` with every character upper-cased (ASCII).
pub open spec fn upper_seq(s: Seq<char>) -> Seq<char> {
    s.map_values(|c: char| ascii_upper(c))
}

/// The terms of a document's text: its tokens, each upper-cased.
pub open spec fn doc_terms(text: Seq<char>) -> Seq<Seq<char>> {
    lex(text).map_values(|tok: Seq<char>| upper_seq(tok))
}

/// The terms of a query: the tokens of the upper-cased query.
pub open spec fn query_terms_of(query: Seq<char>) -> Seq<Seq<char>> {
    lex(upper_seq(query))
}

/// How often `t` occurs in `s`.
pub open spec fn occurrences(s: Seq<Seq<char>>, t: Seq<char>) -> nat
    decreases s.len(),
{
    if s.len() == 0 {
        0
    } else {
        occurrences(s.drop_last(), t) + if s.last() == t {
            1nat
        } else {
            0
        }
    }
}

/// The upper-cased copy of `cs` as a string.
pub fn upper_token(cs: &[char]) -> (r: String)
    ensures
        r@ == upper_seq(cs@),
{
    let mut out: Vec<char> = Vec::new();
    let mut i: usize = 0;
    while i < cs.len()
        invariant
            i <= cs@.len(),
            out@ == upper_seq(cs@.take(i as int)),
        decreases cs@.len() - i,
    {
        out.push(char_to_upper(cs[i]));
        i += 1;
        assert(out@ =~= upper_seq(cs@.take(i as int)));
    }
    assert(cs@.take(i as int) =~= cs@);
    string_of(out.as_slice())
}

/// Tokenizes `text`, upper-cases each token and records every one of them,
/// in order, as an occurrence in the document at `path`.
pub fn index_text(index: &mut TFIDF, path: &String, text: &str)
    requires
        old(index).wf(),
        old(index).length(path@) + text@.len() < u64::MAX,
    ensures
        final(index).wf(),
        forall|d: Seq<char>|
            #[trigger] final(index).has_doc(d) == (old(index).has_doc(d) || (d == path@
                && doc_terms(text@).len() > 0)),
        forall|d: Seq<char>, t: Seq<char>|
            #[trigger] final(index).count(d, t) == old(index).count(d, t) + if d == path@ {
                occurrences(doc_terms(text@), t)
            } else {
                0
            },
        forall|d: Seq<char>|
            #[trigger] final(index).length(d) == old(index).length(d) + if d == path@ {
                doc_terms(text@).len()
            } else {
                0
            },
{
    let chars = chars_of(text);
    let mut lexer = Lexer::from_vec(&chars);
    let tokens = lexer.tokens();
    let ghost terms = doc_terms(text@);
    proof {
        lemma_lex_len(text@);
    }
    let mut k: usize = 0;
    while k < tokens.len()
        invariant
            k <= tokens@.len() == terms.len(),
            forall|i: int| 0 <= i < tokens@.len() ==> upper_seq(#[trigger] tokens@[i]@) == terms[i],
            terms.len() <= text@.len(),
            index.wf(),
            old(index).length(path@) + text@.len() < u64::MAX,
            forall|d: Seq<char>|
                #[trigger] index.has_doc(d) == (old(index).has_doc(d) || (d == path@ && k > 0)),
            forall|d: Seq<char>, t: Seq<char>|
                #[trigger] index.count(d, t) == old(index).count(d, t) + if d == path@ {
                    occurrences(terms.take(k as int), t)
                } else {
                    0
                },
            forall|d: Seq<char>|
                #[trigger] index.length(d) == old(index).length(d) + if d == path@ {
                    k as nat
                } else {
                    0
                },
        decreases tokens@.len() - k,
    {
        let term = upper_token(tokens[k]);
        proof {
            assert(terms.take(k as int + 1).drop_last() =~= terms.take(k as int));
        }
        index.handle_token(path, term);
        k += 1;
    }
    proof {
        assert(terms.take(k as int) =~= terms);
    }
}

/// The terms of `query`: it is upper-cased, then tokenized.
pub fn query_terms(query: &str) -> (r: Vec<String>)
    ensures
        r@.map_values(|s: String| s@) == query_terms_of(query@),
{
    let chars = chars_of(query);
    let mut upper: Vec<char> = Vec::new();
    let mut i: usize = 0;
    while i < chars.len()
        invariant
            i <= chars@.len(),
            upper@ == upper_seq(chars@.take(i as int)),
        decreases chars@.len() - i,
    {
        upper.push(char_to_upper(chars[i]));
        i += 1;
        assert(upper@ =~= upper_seq(chars@.take(i as int)));
    }
    assert(chars@.take(i as int) =~= chars@);
    let mut lexer = Lexer::from_vec(&upper);
    let tokens = lexer.tokens();
    let mut terms: Vec<String> = Vec::new();
    let mut k: usize = 0;
    while k < tokens.len()
        invariant
            k <= tokens@.len(),
            tokens@.len() == query_terms_of(query@).len(),
            forall|i: int| 0 <= i < tokens@.len() ==> #[trigger] tokens@[i]@ == query_terms_of(query@)[i],
            terms@.map_values(|s: String| s@) == query_terms_of(query@).take(k as int),
        decreases tokens@.len() - k,
    {
        let ghost prev = terms@;
        let term = string_of(tokens[k]);
        terms.push(term);
        proof {
            assert(terms@.map_values(|s: String| s@) =~= prev.map_values(|s: String| s@).push(term@));
            assert(query_terms_of(query@).take(k as int + 1) =~= query_terms_of(query@).take(k as int).push(query_terms_of(query@)[k as int]));
        }
        k += 1;
    }
    assert(query_terms_of(query@).take(k as int) =~= query_terms_of(query@));
    terms
}

/// Ranks every indexed document against `query`: the weights of each of the
/// query's terms, duplicates kept, in each document. Ordering by score is
/// left to the caller.
pub fn query(query_text: &str, relevance_struct: &TFIDF) -> (r: Vec<DocScore>)
    requires
        relevance_struct.wf(),
    ensures
        relevance_struct.ranked(query_terms_of(query_text@), r@),
{
    let terms = query_terms(query_text);
    relevance_struct.get_tfidf(&terms)
}

} // verus!
