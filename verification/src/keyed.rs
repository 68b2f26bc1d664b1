//! Lists of entries kept under textual keys, in the order in which the keys
//! first appeared: what a write and an erasure do to such a list, and how an
//! entry is found in it.

use vstd::prelude::*;
use crate::search::{first_where, lemma_first_where, lemma_first_where_is, lemma_first_where_none};

verus! {

/// Whether no two entries share a key.
pub open spec fn distinct_keys<V>(s: Seq<(Seq<char>, V)>) -> bool {
    forall|i: int, j: int| 0 <= i < j < s.len() ==> (#[trigger] s[i]).0 != (#[trigger] s[j]).0
}

/// The test "this entry is kept under `key`".
pub open spec fn key_is<V>(key: Seq<char>) -> spec_fn((Seq<char>, V)) -> bool {
    |e: (Seq<char>, V)| e.0 == key
}

/// Where the entry for `key` stands, if there is one.
pub open spec fn position_of<V>(s: Seq<(Seq<char>, V)>, key: Seq<char>) -> Option<int> {
    first_where(s, key_is::<V>(key))
}

/// The value kept for `key`, if there is one.
pub open spec fn lookup<V>(s: Seq<(Seq<char>, V)>, key: Seq<char>) -> Option<V> {
    match position_of(s, key) {
        Some(i) => Some(s[i].1),
        None => None,
    }
}

/// `s` after a write of `value` for `key`: the entry for `key` is replaced
/// where it stands, or a new entry is added at the end.
pub open spec fn written<V>(s: Seq<(Seq<char>, V)>, key: Seq<char>, value: V) -> Seq<
    (Seq<char>, V),
> {
    match position_of(s, key) {
        Some(i) => s.update(i, (key, value)),
        None => s.push((key, value)),
    }
}

/// `s` without the entry for `key`; the others keep their order.
pub open spec fn erased<V>(s: Seq<(Seq<char>, V)>, key: Seq<char>) -> Seq<(Seq<char>, V)> {
    match position_of(s, key) {
        Some(i) => s.remove(i),
        None => s,
    }
}

/// `s` after erasing each of `keys` in turn.
pub open spec fn erased_all<V>(s: Seq<(Seq<char>, V)>, keys: Seq<Seq<char>>) -> Seq<
    (Seq<char>, V),
>
    decreases keys.len(),
{
    if keys.len() == 0 {
        s
    } else {
        erased(erased_all(s, keys.drop_last()), keys.last())
    }
}

/// A write keeps keys distinct, and afterwards the key reads as written
/// while every other key reads as before.
pub proof fn lemma_written<V>(s: Seq<(Seq<char>, V)>, key: Seq<char>, value: V, other: Seq<char>)
    requires
        distinct_keys(s),
    ensures
        distinct_keys(written(s, key, value)),
        lookup(written(s, key, value), key) == Some(value),
        other != key ==> lookup(written(s, key, value), other) == lookup(s, other),
{
    let w = written(s, key, value);
    let is_key = key_is::<V>(key);
    let is_other = key_is::<V>(other);
    lemma_first_where(s, is_key);
    lemma_first_where(s, is_other);
    match position_of(s, key) {
        Some(i) => {
            assert(w == s.update(i, (key, value)));
            assert forall|a: int, b: int| 0 <= a < b < w.len() implies (#[trigger] w[a]).0 != (
            #[trigger] w[b]).0 by {
                assert(s[a].0 != s[b].0);
                assert(w[a].0 == s[a].0 && w[b].0 == s[b].0);
            }
            assert forall|j: int| 0 <= j < i implies !is_key(#[trigger] w[j]) by {
                assert(w[j] == s[j]);
            }
            lemma_first_where_is(w, is_key, i);
            if other != key {
                match first_where(s, is_other) {
                    Some(k) => {
                        assert(k != i);
                        assert(w[k] == s[k]);
                        assert forall|j: int| 0 <= j < k implies !is_other(#[trigger] w[j]) by {
                            assert(w[j].0 == s[j].0);
                        }
                        lemma_first_where_is(w, is_other, k);
                    },
                    None => {
                        assert forall|j: int| 0 <= j < w.len() implies !is_other(
                            #[trigger] w[j],
                        ) by {
                            assert(w[j].0 == s[j].0);
                        }
                        lemma_first_where_none(w, is_other);
                    },
                }
            }
        },
        None => {
            assert(w == s.push((key, value)));
            assert forall|a: int, b: int| 0 <= a < b < w.len() implies (#[trigger] w[a]).0 != (
            #[trigger] w[b]).0 by {
                assert(w[a] == s[a]);
                if b < s.len() {
                    assert(w[b] == s[b]);
                } else {
                    assert(!is_key(s[a]));
                }
            }
            assert forall|j: int| 0 <= j < s.len() implies !is_key(#[trigger] w[j]) by {
                assert(w[j] == s[j]);
            }
            lemma_first_where_is(w, is_key, s.len() as int);
            if other != key {
                match first_where(s, is_other) {
                    Some(k) => {
                        assert(w[k] == s[k]);
                        assert forall|j: int| 0 <= j < k implies !is_other(#[trigger] w[j]) by {
                            assert(w[j] == s[j]);
                        }
                        lemma_first_where_is(w, is_other, k);
                    },
                    None => {
                        assert forall|j: int| 0 <= j < w.len() implies !is_other(
                            #[trigger] w[j],
                        ) by {
                            if j < s.len() {
                                assert(w[j] == s[j]);
                            }
                        }
                        lemma_first_where_none(w, is_other);
                    },
                }
            }
        },
    }
}

/// Erasing keeps keys distinct, and afterwards the key is gone while every
/// other key reads as before.
pub proof fn lemma_erased<V>(s: Seq<(Seq<char>, V)>, key: Seq<char>, other: Seq<char>)
    requires
        distinct_keys(s),
    ensures
        distinct_keys(erased(s, key)),
        lookup(erased(s, key), key) is None,
        other != key ==> lookup(erased(s, key), other) == lookup(s, other),
{
    let e = erased(s, key);
    let is_key = key_is::<V>(key);
    let is_other = key_is::<V>(other);
    lemma_first_where(s, is_key);
    lemma_first_where(s, is_other);
    match position_of(s, key) {
        Some(i) => {
            assert(e == s.remove(i));
            assert forall|a: int, b: int| 0 <= a < b < e.len() implies (#[trigger] e[a]).0 != (
            #[trigger] e[b]).0 by {
                let a0 = if a < i { a } else { a + 1 };
                let b0 = if b < i { b } else { b + 1 };
                assert(e[a] == s[a0] && e[b] == s[b0]);
            }
            assert forall|j: int| 0 <= j < e.len() implies !is_key(#[trigger] e[j]) by {
                let j0 = if j < i { j } else { j + 1 };
                assert(e[j] == s[j0]);
                assert(j0 != i);
                if j0 < i {
                    assert(s[j0].0 != s[i].0);
                } else {
                    assert(s[i].0 != s[j0].0);
                }
            }
            lemma_first_where_none(e, is_key);
            if other != key {
                match first_where(s, is_other) {
                    Some(k) => {
                        let k1 = if k < i { k } else { k - 1 };
                        assert(e[k1] == s[k]);
                        assert forall|j: int| 0 <= j < k1 implies !is_other(#[trigger] e[j]) by {
                            let j0 = if j < i { j } else { j + 1 };
                            assert(e[j] == s[j0]);
                        }
                        lemma_first_where_is(e, is_other, k1);
                    },
                    None => {
                        assert forall|j: int| 0 <= j < e.len() implies !is_other(
                            #[trigger] e[j],
                        ) by {
                            let j0 = if j < i { j } else { j + 1 };
                            assert(e[j] == s[j0]);
                        }
                        lemma_first_where_none(e, is_other);
                    },
                }
            }
        },
        None => {},
    }
}

/// The position of the first entry kept under `key`.
pub fn find_key<V>(entries: &Vec<(String, V)>, key: &str) -> (r: Option<usize>)
    ensures
        match r {
            Some(i) => i < entries.len() && entries[i as int].0@ == key@ && forall|j: int|
                0 <= j < i ==> (#[trigger] entries[j]).0@ != key@,
            None => forall|j: int| 0 <= j < entries.len() ==> (#[trigger] entries[j]).0@ != key@,
        },
{
    let mut i: usize = 0;
    while i < entries.len()
        invariant
            i <= entries.len(),
            forall|j: int| 0 <= j < i ==> (#[trigger] entries[j]).0@ != key@,
        decreases entries.len() - i,
    {
        if *entries[i].0 == *key {
            return Some(i);
        }
        i += 1;
    }
    None
}

} // verus!
