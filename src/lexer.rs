//! The tokenizer: splits a buffer of characters into alphanumeric runs and
//! single-character symbols, skipping whitespace.

use vstd::prelude::*;
use crate::chars::{is_space, is_alnum, char_is_space, char_is_alnum};

verus! {

/// `s` without its leading whitespace.
pub open spec fn trimmed(s: Seq<char>) -> Seq<char>
    decreases s.len(),
{
    if s.len() > 0 && is_space(s[0]) {
        trimmed(s.drop_first())
    } else {
        s
    }
}

/// Length of the longest prefix of `s` made of alphanumeric characters.
pub open spec fn alnum_run(s: Seq<char>) -> nat
    decreases s.len(),
{
    if s.len() > 0 && is_alnum(s[0]) {
        1 + alnum_run(s.drop_first())
    } else {
        0
    }
}

/// Length of the token at the front of a non-empty buffer that starts with
/// no whitespace: an alphanumeric run, or else a single character.
pub open spec fn token_len(s: Seq<char>) -> nat {
    if is_alnum(s[0]) {
        alnum_run(s)
    } else {
        1
    }
}

/// The tokens of `s`, in order.
pub open spec fn lex(s: Seq<char>) -> Seq<Seq<char>>
    decreases s.len(),
    via lex_decreases
{
    let t = trimmed(s);
    if t.len() == 0 {
        seq![]
    } else {
        seq![t.take(token_len(t) as int)] + lex(t.skip(token_len(t) as int))
    }
}

pub proof fn lemma_trimmed_len(s: Seq<char>)
    ensures
        trimmed(s).len() <= s.len(),
        trimmed(s).len() > 0 ==> !is_space(trimmed(s)[0]),
        trimmed(s) == s.skip(s.len() - trimmed(s).len()),
    decreases s.len(),
{
    if s.len() > 0 && is_space(s[0]) {
        lemma_trimmed_len(s.drop_first());
        assert(s.drop_first().skip(s.drop_first().len() - trimmed(s).len()) =~= s.skip(
            s.len() - trimmed(s).len(),
        ));
    } else {
        assert(s.skip(0) =~= s);
    }
}

pub proof fn lemma_alnum_run_len(s: Seq<char>)
    ensures
        alnum_run(s) <= s.len(),
        s.len() > 0 && is_alnum(s[0]) ==> alnum_run(s) >= 1,
    decreases s.len(),
{
    if s.len() > 0 && is_alnum(s[0]) {
        lemma_alnum_run_len(s.drop_first());
    }
}

pub proof fn lemma_token_len(s: Seq<char>)
    requires
        s.len() > 0,
    ensures
        1 <= token_len(s) <= s.len(),
{
    lemma_alnum_run_len(s);
}

#[via_fn]
proof fn lex_decreases(s: Seq<char>) {
    lemma_trimmed_len(s);
    let t = trimmed(s);
    if t.len() != 0 {
        lemma_token_len(t);
        assert(t.skip(token_len(t) as int).len() < s.len());
    }
}

/// A buffer never holds more tokens than characters.
pub proof fn lemma_lex_len(s: Seq<char>)
    ensures
        lex(s).len() <= s.len(),
    decreases s.len(),
{
    lemma_trimmed_len(s);
    let t = trimmed(s);
    if t.len() != 0 {
        lemma_token_len(t);
        lemma_lex_len(t.skip(token_len(t) as int));
    }
}

/// A run of `n` characters that all pass and is followed by the end of `s` or
/// by a character that does not pass is the whole alphanumeric run.
proof fn lemma_alnum_run_exact(s: Seq<char>, n: nat)
    requires
        n <= s.len(),
        forall|i: int| 0 <= i < n ==> is_alnum(#[trigger] s[i]),
        n < s.len() ==> !is_alnum(s[n as int]),
    ensures
        alnum_run(s) == n,
    decreases n,
{
    if n > 0 {
        assert forall|i: int| 0 <= i < n - 1 implies is_alnum(#[trigger] s.drop_first()[i]) by {
            assert(s.drop_first()[i] == s[i + 1]);
        }
        lemma_alnum_run_exact(s.drop_first(), (n - 1) as nat);
    }
}

/// A cursor over a borrowed buffer of characters that hands out tokens.
#[derive(Debug)]
pub struct Lexer<'a> {
    content: &'a [char],
}

impl<'a> View for Lexer<'a> {
    type V = Seq<char>;

    /// The characters not yet consumed.
    closed spec fn view(&self) -> Seq<char> {
        self.content@
    }
}

impl<'a> Lexer<'a> {
    pub fn new(content: &'a [char]) -> (r: Self)
        ensures
            r@ == content@,
    {
        Self { content }
    }

    pub fn from_vec(content: &'a Vec<char>) -> (r: Self)
        ensures
            r@ == content@,
    {
        Self { content: content.as_slice() }
    }

    /// Drops the leading whitespace.
    pub fn trim_left(&mut self)
        ensures
            final(self)@ == trimmed(old(self)@),
    {
        while self.content.len() > 0 && char_is_space(self.content[0])
            invariant
                trimmed(self@) == trimmed(old(self)@),
            decreases self@.len(),
        {
            let len = self.content.len();
            self.content = vstd::slice::slice_subrange(self.content, 1, len);
        }
    }

    /// Takes the first `n` characters off the buffer and returns them.
    pub fn eat(&mut self, n: usize) -> (r: &'a [char])
        requires
            n <= old(self)@.len(),
        ensures
            r@ == old(self)@.take(n as int),
            final(self)@ == old(self)@.skip(n as int),
    {
        let len = self.content.len();
        let token = vstd::slice::slice_subrange(self.content, 0, n);
        self.content = vstd::slice::slice_subrange(self.content, n, len);
        token
    }

    /// Takes off the buffer the longest prefix whose characters all pass
    /// `predicate`, and returns it.
    pub fn next_pred<P: Fn(&char) -> bool>(&mut self, predicate: P) -> (r: &'a [char])
        requires
            forall|c: &char| #[trigger] predicate.requires((c,)),
        ensures
            r@.len() <= old(self)@.len(),
            r@ == old(self)@.take(r@.len() as int),
            final(self)@ == old(self)@.skip(r@.len() as int),
            forall|i: int| 0 <= i < r@.len() ==> predicate.ensures((&old(self)@[i],), true),
            r@.len() < old(self)@.len() ==> predicate.ensures((&old(self)@[r@.len() as int],), false),
    {
        let mut n: usize = 0;
        while n < self.content.len() && predicate(&self.content[n])
            invariant
                n <= self@.len(),
                self@ == old(self)@,
                forall|c: &char| #[trigger] predicate.requires((c,)),
                forall|i: int| 0 <= i < n ==> predicate.ensures((&old(self)@[i],), true),
            decreases self@.len() - n,
        {
            n += 1;
        }
        self.eat(n)
    }

    /// Skips whitespace, then takes the next token off the buffer: a maximal
    /// alphanumeric run, or else a single character. `None` once only
    /// whitespace is left.
    pub fn next_token(&mut self) -> (r: Option<&'a [char]>)
        ensures
            ({
                let t = trimmed(old(self)@);
                if t.len() == 0 {
                    r is None && final(self)@ == t
                } else {
                    r is Some && r->0@ == t.take(token_len(t) as int) && final(self)@ == t.skip(
                        token_len(t) as int,
                    )
                }
            }),
            lex(old(self)@) == match r {
                None => seq![],
                Some(tok) => seq![tok@] + lex(final(self)@),
            },
    {
        self.trim_left();
        proof {
            lemma_trimmed_len(old(self)@);
        }
        if self.content.len() == 0 {
            return None;
        }
        let ghost t = self@;
        if char_is_alnum(self.content[0]) {
            let tok = self.next_pred(|c: &char| -> (b: bool)
                ensures
                    b == is_alnum(*c),
                { char_is_alnum(*c) });
            proof {
                lemma_alnum_run_exact(t, tok@.len());
            }
            Some(tok)
        } else {
            Some(self.eat(1))
        }
    }

    /// Takes every remaining token off the buffer, in order.
    pub fn tokens(&mut self) -> (r: Vec<&'a [char]>)
        ensures
            r@.len() == lex(old(self)@).len(),
            forall|i: int| 0 <= i < r@.len() ==> #[trigger] r@[i]@ == lex(old(self)@)[i],
    {
        let mut out: Vec<&'a [char]> = Vec::new();
        loop
            invariant
                lex(old(self)@) == out@.map_values(|t: &'a [char]| t@) + lex(self@),
            decreases self@.len(),
        {
            let ghost before = self@;
            proof {
                lemma_trimmed_len(before);
            }
            match self.next_token() {
                None => {
                    assert(lex(old(self)@) =~= out@.map_values(|t: &'a [char]| t@));
                    return out;
                },
                Some(tok) => {
                    proof {
                        lemma_token_len(trimmed(before));
                    }
                    let ghost prev = out@;
                    out.push(tok);
                    assert(out@.map_values(|t: &'a [char]| t@) =~= prev.map_values(
                        |t: &'a [char]| t@,
                    ).push(tok@));
                    assert(lex(old(self)@) =~= out@.map_values(|t: &'a [char]| t@) + lex(self@));
                },
            }
        }
    }
}

} // verus!
