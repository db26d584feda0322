//! Tables: sequences of entries, each a key with a value, in the order in which
//! the keys came.

use vstd::prelude::*;

use crate::text::same;

verus! {

/// The place of `key` in `table`, or the number of entries where it is missing.
pub open spec fn index_of<V>(table: Seq<(Seq<char>, V)>, key: Seq<char>) -> int
    decreases table.len(),
{
    if table.len() == 0 || table[0].0 == key {
        0
    } else {
        1 + index_of(table.skip(1), key)
    }
}

/// Whether `table` has an entry for `key`.
pub open spec fn has<V>(table: Seq<(Seq<char>, V)>, key: Seq<char>) -> bool {
    index_of(table, key) < table.len()
}

/// The value under `key`, `None` where the key is missing.
pub open spec fn lookup<V>(table: Seq<(Seq<char>, V)>, key: Seq<char>) -> Option<V> {
    if has(table, key) {
        Some(table[index_of(table, key)].1)
    } else {
        None
    }
}

/// `table` with `value` under `key`: in the place of the old value where the
/// key is there, at the end where it is not.
pub open spec fn insert<V>(
    table: Seq<(Seq<char>, V)>,
    key: Seq<char>,
    value: V,
) -> Seq<(Seq<char>, V)> {
    if has(table, key) {
        table.update(index_of(table, key), (key, value))
    } else {
        table.push((key, value))
    }
}

/// `table` without the entry for `key`.
pub open spec fn remove<V>(table: Seq<(Seq<char>, V)>, key: Seq<char>) -> Seq<(Seq<char>, V)> {
    if has(table, key) {
        table.remove(index_of(table, key))
    } else {
        table
    }
}

/// No key occurs twice.
pub open spec fn distinct<V>(table: Seq<(Seq<char>, V)>) -> bool {
    forall|i: int, j: int|
        #![trigger table[i], table[j]]
        0 <= i < j < table.len() ==> table[i].0 != table[j].0
}

/// `index_of` is a place before which the key does not occur, and at which it
/// does unless it is the end.
pub proof fn lemma_index_of<V>(table: Seq<(Seq<char>, V)>, key: Seq<char>)
    ensures
        0 <= index_of(table, key) <= table.len(),
        forall|j: int| 0 <= j < index_of(table, key) ==> (#[trigger] table[j]).0 != key,
        has(table, key) ==> table[index_of(table, key)].0 == key,
    decreases table.len(),
{
    if table.len() > 0 && table[0].0 != key {
        let rest = table.skip(1);
        lemma_index_of(rest, key);
        assert forall|j: int| 0 <= j < index_of(table, key) implies (#[trigger] table[j]).0
            != key by {
            if j > 0 {
                assert(table[j] == rest[j - 1]);
            }
        }
    }
}

/// The converse of `lemma_index_of`.
pub proof fn lemma_index_is<V>(table: Seq<(Seq<char>, V)>, key: Seq<char>, i: int)
    requires
        0 <= i <= table.len(),
        forall|j: int| 0 <= j < i ==> (#[trigger] table[j]).0 != key,
        i < table.len() ==> table[i].0 == key,
    ensures
        index_of(table, key) == i,
{
    lemma_index_of(table, key);
    let k = index_of(table, key);
    if k < i {
        assert(table[k].0 != key);
    } else if i < k {
        assert(table[i].0 != key);
    }
}

/// What was inserted under a key is found there, and every other key keeps its
/// value.
pub proof fn lemma_lookup_insert<V>(
    table: Seq<(Seq<char>, V)>,
    key: Seq<char>,
    value: V,
    other: Seq<char>,
)
    ensures
        lookup(insert(table, key, value), other) == (if other == key {
            Some(value)
        } else {
            lookup(table, other)
        }),
{
    let after = insert(table, key, value);
    lemma_index_of(table, key);
    lemma_index_of(table, other);
    let k = index_of(table, key);
    let o = index_of(table, other);
    assert(after[k] == (key, value));
    assert forall|j: int| 0 <= j < after.len() && j != k implies after[j] == table[j] by {}
    if other == key {
        lemma_index_is(after, other, k);
    } else if o < table.len() {
        assert(after[o] == table[o]);
        lemma_index_is(after, other, o);
    } else {
        lemma_index_is(after, other, after.len() as int);
    }
}

/// A removed key is gone, and every other key keeps its value.
pub proof fn lemma_lookup_remove<V>(
    table: Seq<(Seq<char>, V)>,
    key: Seq<char>,
    other: Seq<char>,
)
    requires
        distinct(table),
    ensures
        lookup(remove(table, key), other) == (if other == key {
            None
        } else {
            lookup(table, other)
        }),
{
    let after = remove(table, key);
    lemma_index_of(table, key);
    lemma_index_of(table, other);
    let k = index_of(table, key);
    let o = index_of(table, other);
    if k < table.len() {
        assert forall|j: int| 0 <= j < after.len() implies after[j] == table[if j < k {
            j
        } else {
            j + 1
        }] by {}
        if other == key {
            assert forall|j: int| 0 <= j < after.len() implies (#[trigger] after[j]).0 != key by {
                let t = if j < k {
                    j
                } else {
                    j + 1
                };
                assert(after[j] == table[t]);
                assert(table[t].0 != table[k].0);
            }
            lemma_index_is(after, other, after.len() as int);
        } else {
            let place = if o < k {
                o
            } else {
                o - 1
            };
            assert forall|j: int| 0 <= j < place implies (#[trigger] after[j]).0 != other by {
                let t = if j < k {
                    j
                } else {
                    j + 1
                };
                assert(after[j] == table[t]);
                assert(table[t].0 != other);
            }
            lemma_index_is(after, other, place);
        }
    }
}

/// Inserting and removing keep the keys distinct.
pub proof fn lemma_distinct<V>(table: Seq<(Seq<char>, V)>, key: Seq<char>, value: V)
    requires
        distinct(table),
    ensures
        distinct(insert(table, key, value)),
        distinct(remove(table, key)),
{
    lemma_index_of(table, key);
    let after = insert(table, key, value);
    assert forall|i: int, j: int|
        #![trigger after[i], after[j]]
        0 <= i < j < after.len() implies after[i].0 != after[j].0 by {
        if j < table.len() {
            assert(after[i].0 == table[i].0);
            assert(after[j].0 == table[j].0);
        } else {
            assert(after[i] == table[i]);
        }
    }
    let less = remove(table, key);
    let k = index_of(table, key);
    if k < table.len() {
        assert forall|i: int, j: int|
            #![trigger less[i], less[j]]
            0 <= i < j < less.len() implies less[i].0 != less[j].0 by {
            let a = if i < k {
                i
            } else {
                i + 1
            };
            let b = if j < k {
                j
            } else {
                j + 1
            };
            assert(less[i] == table[a]);
            assert(less[j] == table[b]);
        }
    }
}

/// The place of `key`, or the number of entries.
pub fn place_of<V: DeepView>(table: &Vec<(String, V)>, key: &str) -> (r: usize)
    ensures
        r <= table@.len(),
        r == index_of(table.deep_view(), key@),
{
    let mut i: usize = 0;
    while i < table.len() && !same(table[i].0.as_str(), key)
        invariant
            i <= table@.len(),
            forall|j: int| 0 <= j < i ==> (#[trigger] table@[j]).0@ != key@,
        decreases table@.len() - i,
    {
        i += 1;
    }
    proof {
        let view = table.deep_view();
        assert forall|j: int| 0 <= j < i implies (#[trigger] view[j]).0 != key@ by {
            assert(view[j].0 == table@[j].0@);
        }
        lemma_index_is(view, key@, i as int);
    }
    i
}

/// Whether there is an entry for `key`.
pub fn has_key<V: DeepView>(table: &Vec<(String, V)>, key: &str) -> (r: bool)
    ensures
        r == has(table.deep_view(), key@),
{
    place_of(table, key) < table.len()
}

/// The value under `key`.
pub fn lookup_in<'a, V: DeepView>(table: &'a Vec<(String, V)>, key: &str) -> (r: Option<&'a V>)
    ensures
        r.deep_view() == lookup(table.deep_view(), key@),
{
    let i: usize = place_of(table, key);
    if i < table.len() {
        Some(&table[i].1)
    } else {
        None
    }
}

/// Puts `value` under `key`.
pub fn insert_in<V: DeepView>(table: &mut Vec<(String, V)>, key: &str, value: V)
    ensures
        final(table).deep_view() == insert(old(table).deep_view(), key@, value.deep_view()),
{
    let i: usize = place_of(table, key);
    let ghost before = table.deep_view();
    let ghost view = value.deep_view();
    let entry = (key.to_owned(), value);
    if i < table.len() {
        table[i] = entry;
        proof {
            assert(table.deep_view() =~= before.update(i as int, (key@, view)));
        }
    } else {
        table.push(entry);
        proof {
            assert(table.deep_view() =~= before.push((key@, view)));
        }
    }
}

/// Takes the entry for `key` out, and gives its value back.
pub fn remove_in<V: DeepView>(table: &mut Vec<(String, V)>, key: &str) -> (r: Option<V>)
    ensures
        final(table).deep_view() == remove(old(table).deep_view(), key@),
        r.deep_view() == lookup(old(table).deep_view(), key@),
{
    let i: usize = place_of(table, key);
    let ghost before = table.deep_view();
    if i < table.len() {
        let (_, value) = table.remove(i);
        proof {
            assert(table.deep_view() =~= before.remove(i as int));
        }
        Some(value)
    } else {
        None
    }
}

/// Adds an entry at the end.
pub fn put<V: DeepView>(table: &mut Vec<(String, V)>, key: &str, value: V)
    ensures
        final(table).deep_view() == old(table).deep_view().push((key@, value.deep_view())),
{
    let ghost before = table.deep_view();
    let ghost view = value.deep_view();
    table.push((key.to_owned(), value));
    proof {
        assert(table.deep_view() =~= before.push((key@, view)));
    }
}

} // verus!
