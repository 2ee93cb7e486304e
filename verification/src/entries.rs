//! The last-seen map layer: a map from target account id to a
//! last-processed item id, stored as an encoded list of
//! `<id>:<value>` entry strings. Entries whose key part is not a
//! canonical id, or which have no separator, are malformed and are
//! discarded silently on decode.

use vstd::prelude::*;

verus! {

use crate::codec::str_eq;
use crate::digits::int_repr;
use crate::digits::lemma_int_repr_injective;
use crate::digits::parse_i64;
use crate::digits::push_int;

/// The entry string for one map pair.
pub open spec fn entry_of(id: i64, val: Seq<char>) -> Seq<char> {
    int_repr(id as int) + seq![':'] + val
}

/// The index of the first separator, or -1 when there is none.
pub open spec fn first_colon(s: Seq<char>) -> int
    decreases s.len(),
{
    if s.len() == 0 {
        -1
    } else if s[0] == ':' {
        0
    } else {
        let r = first_colon(s.drop_first());
        if r == -1 {
            -1
        } else {
            r + 1
        }
    }
}

/// A position with a separator and none before it is the first one.
pub proof fn lemma_first_colon_at(s: Seq<char>, i: int)
    requires
        0 <= i < s.len(),
        s[i] == ':',
        forall|k: int| 0 <= k < i ==> s[k] != ':',
    ensures
        first_colon(s) == i,
    decreases i,
{
    if i > 0 {
        assert(s[0] != ':');
        assert(forall|k: int| 0 <= k < i - 1 ==> s.drop_first()[k] != ':');
        assert(s.drop_first()[i - 1] == ':');
        lemma_first_colon_at(s.drop_first(), i - 1);
    }
}

/// A string without a separator has no first one.
pub proof fn lemma_first_colon_none(s: Seq<char>)
    requires
        forall|k: int| 0 <= k < s.len() ==> s[k] != ':',
    ensures
        first_colon(s) == -1,
    decreases s.len(),
{
    if s.len() > 0 {
        assert(forall|k: int| 0 <= k < s.drop_first().len() ==> s.drop_first()[k] != ':');
        lemma_first_colon_none(s.drop_first());
    }
}

/// The key and value of an entry string: the text before the first
/// separator must be a canonical id; the value is everything after.
pub open spec fn entry_key_val(s: Seq<char>) -> Option<(i64, Seq<char>)> {
    let j = first_colon(s);
    if j < 0 {
        None
    } else if exists|v: i64| s.take(j) == int_repr(v as int) {
        Some((choose|v: i64| s.take(j) == int_repr(v as int), s.skip(j + 1)))
    } else {
        None
    }
}

/// The well-formed entries of a decoded entry-string list, malformed
/// ones discarded.
pub open spec fn entries_of_items(items: Seq<Seq<char>>) -> Seq<(i64, Seq<char>)>
    decreases items.len(),
{
    if items.len() == 0 {
        Seq::empty()
    } else {
        let pre = entries_of_items(items.drop_last());
        match entry_key_val(items.last()) {
            Some(e) => pre.push(e),
            None => pre,
        }
    }
}

/// The entries with the given key removed.
pub open spec fn remove_key(es: Seq<(i64, Seq<char>)>, k: i64) -> Seq<(i64, Seq<char>)>
    decreases es.len(),
{
    if es.len() == 0 {
        Seq::empty()
    } else {
        let pre = remove_key(es.drop_last(), k);
        if es.last().0 == k {
            pre
        } else {
            pre.push(es.last())
        }
    }
}

/// Last write wins: the entries set the key to the new value.
pub open spec fn upsert(
    es: Seq<(i64, Seq<char>)>,
    k: i64,
    v: Seq<char>,
) -> Seq<(i64, Seq<char>)> {
    remove_key(es, k).push((k, v))
}

/// The map an entry list denotes, later entries overriding earlier
/// ones.
pub open spec fn map_of_entries(es: Seq<(i64, Seq<char>)>) -> Map<i64, Seq<char>>
    decreases es.len(),
{
    if es.len() == 0 {
        Map::empty()
    } else {
        map_of_entries(es.drop_last()).insert(es.last().0, es.last().1)
    }
}

/// Removing a key from the entries removes it from the map.
pub proof fn lemma_remove_key_map(es: Seq<(i64, Seq<char>)>, k: i64)
    ensures
        map_of_entries(remove_key(es, k)) == map_of_entries(es).remove(k),
    decreases es.len(),
{
    if es.len() == 0 {
        assert(map_of_entries(remove_key(es, k)) =~= map_of_entries(es).remove(k));
    } else {
        lemma_remove_key_map(es.drop_last(), k);
        assert(map_of_entries(es)
            == map_of_entries(es.drop_last()).insert(es.last().0, es.last().1));
        if es.last().0 == k {
            assert(remove_key(es, k) == remove_key(es.drop_last(), k));
            assert(map_of_entries(remove_key(es, k))
                =~= map_of_entries(es).remove(k));
        } else {
            let pre = remove_key(es.drop_last(), k);
            assert(remove_key(es, k) == pre.push(es.last()));
            assert(pre.push(es.last()).drop_last() =~= pre);
            assert(map_of_entries(pre.push(es.last()))
                == map_of_entries(pre).insert(es.last().0, es.last().1));
            assert(map_of_entries(remove_key(es, k))
                =~= map_of_entries(es).remove(k));
        }
    }
}

/// Upserting a pair sets exactly that key in the map.
pub proof fn lemma_upsert_map(es: Seq<(i64, Seq<char>)>, k: i64, v: Seq<char>)
    ensures
        map_of_entries(upsert(es, k, v)) == map_of_entries(es).insert(k, v),
{
    lemma_remove_key_map(es, k);
    assert(upsert(es, k, v).drop_last() =~= remove_key(es, k));
    assert(map_of_entries(upsert(es, k, v))
        =~= map_of_entries(es).insert(k, v));
}

/// Builds the entry string for one pair.
pub fn encode_entry(id: i64, val: &str) -> (r: String)
    ensures
        r@ == entry_of(id, val@),
{
    let mut s = String::new();
    push_int(&mut s, id);
    crate::trusted::push_char(&mut s, ':');
    let mut j: usize = 0;
    let n = val.unicode_len();
    while j < n
        invariant
            0 <= j <= n,
            n == val@.len(),
            s@ == int_repr(id as int) + seq![':'] + val@.take(j as int),
        decreases n - j,
    {
        let c = val.get_char(j);
        crate::trusted::push_char(&mut s, c);
        j = j + 1;
        proof {
            assert(val@.take(j as int) =~= val@.take(j - 1).push(val@[j - 1]));
            assert((int_repr(id as int) + seq![':'] + val@.take(j - 1)).push(val@[j - 1])
                =~= int_repr(id as int) + seq![':'] + val@.take(j as int));
        }
    }
    proof {
        assert(val@.take(n as int) =~= val@);
    }
    s
}

/// Splits an entry string at its first separator and parses the key.
pub fn parse_entry(s: &str) -> (r: Option<(i64, String)>)
    ensures
        (r matches Some(e) ==> entry_key_val(s@) == Some((e.0, e.1@))),
        r is None ==> entry_key_val(s@) is None,
{
    let n = s.unicode_len();
    let mut j: usize = 0;
    while j < n
        invariant
            0 <= j <= n,
            n == s@.len(),
            forall|k: int| 0 <= k < j ==> s@[k] != ':',
        ensures
            0 <= j <= n,
            n == s@.len(),
            forall|k: int| 0 <= k < j ==> s@[k] != ':',
            j < n ==> s@[j as int] == ':',
        decreases n - j,
    {
        if s.get_char(j) == ':' {
            break;
        }
        j = j + 1;
    }
    if j == n {
        proof {
            lemma_first_colon_none(s@);
        }
        return None;
    }
    proof {
        lemma_first_colon_at(s@, j as int);
    }
    let key_text = s.substring_char(0, j);
    proof {
        assert(key_text@ =~= s@.take(j as int));
    }
    match parse_i64(key_text) {
        Some(k) => {
            let mut enc = String::new();
            push_int(&mut enc, k);
            proof {
                assert(enc@ =~= int_repr(k as int));
            }
            if !str_eq(enc.as_str(), key_text) {
                proof {
                    if exists|v: i64| s@.take(j as int) == int_repr(v as int) {
                        let v = choose|v: i64| s@.take(j as int) == int_repr(v as int);
                        assert(key_text@ == int_repr(v as int));
                    }
                }
                return None;
            }
            let val = s.substring_char(j + 1, n).to_owned();
            proof {
                assert(val@ =~= s@.skip(j + 1));
                assert(exists|v: i64| s@.take(j as int) == int_repr(v as int));
                let w = choose|v: i64| s@.take(j as int) == int_repr(v as int);
                lemma_int_repr_injective(w as int, k as int);
            }
            Some((k, val))
        }
        None => {
            proof {
                if exists|v: i64| s@.take(j as int) == int_repr(v as int) {
                    let v = choose|v: i64| s@.take(j as int) == int_repr(v as int);
                    assert(key_text@ == int_repr(v as int));
                }
            }
            None
        }
    }
}

} // verus!
