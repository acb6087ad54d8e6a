//! Association lists keyed by strings: the storage behind the index tables.

use vstd::prelude::*;

verus! {

/// The views of a list of strings.
pub open spec fn views(v: Seq<String>) -> Seq<Seq<char>> {
    v.map_values(|s: String| s@)
}

/// No key occurs twice in `s`.
pub open spec fn unique_keys<V>(s: Seq<(String, V)>) -> bool {
    forall|i: int, j: int| 0 <= i < j < s.len() ==> s[i].0@ != s[j].0@
}

/// The key `k` occurs in `s`.
pub open spec fn has_key<V>(s: Seq<(String, V)>, k: Seq<char>) -> bool {
    exists|i: int| 0 <= i < s.len() && s[i].0@ == k
}

/// The value stored under `k`: the last entry with that key, if any.
pub open spec fn lookup<V>(s: Seq<(String, V)>, k: Seq<char>) -> Option<V>
    decreases s.len(),
{
    if s.len() == 0 {
        None
    } else if s.last().0@ == k {
        Some(s.last().1)
    } else {
        lookup(s.drop_last(), k)
    }
}

pub proof fn lemma_lookup_at<V>(s: Seq<(String, V)>, i: int)
    requires
        unique_keys(s),
        0 <= i < s.len(),
    ensures
        lookup(s, s[i].0@) == Some(s[i].1),
    decreases s.len(),
{
    if i != s.len() - 1 {
        lemma_lookup_at(s.drop_last(), i);
    }
}

pub proof fn lemma_lookup_absent<V>(s: Seq<(String, V)>, k: Seq<char>)
    requires
        !has_key(s, k),
    ensures
        lookup(s, k) is None,
    decreases s.len(),
{
    if s.len() > 0 {
        assert(!has_key(s.drop_last(), k)) by {
            if has_key(s.drop_last(), k) {
                let i = choose|i: int| 0 <= i < s.drop_last().len() && s.drop_last()[i].0@ == k;
                assert(s[i].0@ == k);
            }
        }
        lemma_lookup_absent(s.drop_last(), k);
    }
}

pub proof fn lemma_lookup_some<V>(s: Seq<(String, V)>, k: Seq<char>)
    requires
        unique_keys(s),
    ensures
        lookup(s, k) is Some <==> has_key(s, k),
{
    if has_key(s, k) {
        let i = choose|i: int| 0 <= i < s.len() && s[i].0@ == k;
        lemma_lookup_at(s, i);
    } else {
        lemma_lookup_absent(s, k);
    }
}

pub proof fn lemma_lookup_update<V>(s: Seq<(String, V)>, i: int, v: V, k: Seq<char>)
    requires
        unique_keys(s),
        0 <= i < s.len(),
    ensures
        unique_keys(s.update(i, (s[i].0, v))),
        lookup(s.update(i, (s[i].0, v)), k) == if k == s[i].0@ {
            Some(v)
        } else {
            lookup(s, k)
        },
    decreases s.len(),
{
    let u = s.update(i, (s[i].0, v));
    if i == s.len() - 1 {
        assert(u.drop_last() =~= s.drop_last());
    } else {
        assert(u.drop_last() =~= s.drop_last().update(i, (s[i].0, v)));
        lemma_lookup_update(s.drop_last(), i, v, k);
        if k == s[i].0@ {
            lemma_lookup_at(u, i);
        }
    }
}

pub proof fn lemma_lookup_push<V>(s: Seq<(String, V)>, e: (String, V), k: Seq<char>)
    requires
        unique_keys(s),
        !has_key(s, e.0@),
    ensures
        unique_keys(s.push(e)),
        lookup(s.push(e), k) == if k == e.0@ {
            Some(e.1)
        } else {
            lookup(s, k)
        },
{
    assert(s.push(e).drop_last() =~= s);
    assert forall|i: int, j: int| 0 <= i < j < s.push(e).len() implies s.push(e)[i].0@ != s.push(
        e,
    )[j].0@ by {
        if j == s.len() {
            assert(s[i].0@ != e.0@);
        }
    }
}

/// Inserting an entry under a new key adds that key and changes no other.
pub proof fn lemma_lookup_insert<V>(s: Seq<(String, V)>, p: int, e: (String, V), k: Seq<char>)
    requires
        unique_keys(s),
        !has_key(s, e.0@),
        0 <= p <= s.len(),
    ensures
        unique_keys(s.insert(p, e)),
        lookup(s.insert(p, e), k) == if k == e.0@ {
            Some(e.1)
        } else {
            lookup(s, k)
        },
{
    let u = s.insert(p, e);
    assert forall|i: int, j: int| 0 <= i < j < u.len() implies u[i].0@ != u[j].0@ by {
        if i == p {
            assert(u[j] == s[j - 1]);
        } else if j == p {
            assert(u[i] == s[i]);
        } else {
            let si = if i < p { i } else { i - 1 };
            let sj = if j < p { j } else { j - 1 };
            assert(u[i] == s[si] && u[j] == s[sj]);
        }
    }
    if k == e.0@ {
        lemma_lookup_at(u, p);
    } else if has_key(s, k) {
        let i = choose|i: int| 0 <= i < s.len() && s[i].0@ == k;
        lemma_lookup_at(s, i);
        let ui = if i < p { i } else { i + 1 };
        assert(u[ui] == s[i]);
        lemma_lookup_at(u, ui);
    } else {
        lemma_lookup_absent(s, k);
        assert(!has_key(u, k)) by {
            if has_key(u, k) {
                let i = choose|i: int| 0 <= i < u.len() && u[i].0@ == k;
                if i < p {
                    assert(u[i] == s[i]);
                } else if i > p {
                    assert(u[i] == s[i - 1]);
                }
            }
        }
        lemma_lookup_absent(u, k);
    }
}

/// The position of key `k` in `s`, if it is there.
pub fn find_key<V>(s: &Vec<(String, V)>, k: &String) -> (r: Option<usize>)
    ensures
        match r {
            Some(i) => i < s@.len() && s@[i as int].0@ == k@,
            None => !has_key(s@, k@),
        },
{
    let mut i: usize = 0;
    while i < s.len()
        invariant
            i <= s@.len(),
            forall|j: int| 0 <= j < i ==> s@[j].0@ != k@,
        decreases s@.len() - i,
    {
        if s[i].0 == *k {
            return Some(i);
        }
        i += 1;
    }
    None
}

/// Whether no key occurs twice in `s`.
pub fn check_unique<V>(s: &Vec<(String, V)>) -> (r: bool)
    ensures
        r == unique_keys(s@),
{
    let mut i: usize = 0;
    while i < s.len()
        invariant
            i <= s@.len(),
            forall|a: int, b: int| 0 <= a < b < i ==> s@[a].0@ != s@[b].0@,
        decreases s@.len() - i,
    {
        let mut j: usize = 0;
        while j < i
            invariant
                j <= i < s@.len(),
                forall|a: int| 0 <= a < j ==> s@[a].0@ != s@[i as int].0@,
            decreases i - j,
        {
            if s[j].0 == s[i].0 {
                return false;
            }
            j += 1;
        }
        i += 1;
    }
    true
}

/// Adds one to the count stored under `k`, or stores `k` with count 1.
pub fn bump(s: &mut Vec<(String, u64)>, k: String)
    requires
        unique_keys(old(s)@),
        forall|c: u64| lookup(old(s)@, k@) == Some(c) ==> c < u64::MAX,
    ensures
        unique_keys(final(s)@),
        forall|t: Seq<char>|
            #[trigger] lookup(final(s)@, t) == if t == k@ {
                Some(
                    match lookup(old(s)@, t) {
                        Some(c) => (c + 1) as u64,
                        None => 1u64,
                    },
                )
            } else {
                lookup(old(s)@, t)
            },
{
    let ghost s0 = s@;
    let ghost kv = k@;
    match find_key(s, &k) {
        Some(j) => {
            proof {
                lemma_lookup_at(s0, j as int);
            }
            let c = s[j].1;
            s[j].1 = c + 1;
            proof {
                assert(s@ =~= s0.update(j as int, (s0[j as int].0, (c + 1) as u64)));
                assert forall|t: Seq<char>| #[trigger] lookup(s@, t) == if t == kv {
                    Some((c + 1) as u64)
                } else {
                    lookup(s0, t)
                } by {
                    lemma_lookup_update(s0, j as int, (c + 1) as u64, t);
                }
            }
        },
        None => {
            proof {
                lemma_lookup_absent(s0, kv);
            }
            s.push((k, 1));
            proof {
                let e = s@.last();
                assert(s@ =~= s0.push(e));
                assert forall|t: Seq<char>| #[trigger] lookup(s@, t) == if t == kv {
                    Some(1u64)
                } else {
                    lookup(s0, t)
                } by {
                    lemma_lookup_push(s0, e, t);
                }
            }
        },
    }
}

} // verus!
