//! The encoded-set codec for integer identifier lists: a list of ids
//! is stored in a single scalar field as a bracketed, comma-separated
//! token such as `[1,2,3]`. Decoding is strict: only the canonical
//! encoding of a list is accepted, and anything else is reported as a
//! decode failure, which callers treat as a corrupt row.

use vstd::prelude::*;

verus! {

use crate::digits::int_repr;
use crate::digits::lemma_int_repr_chars;
use crate::digits::lemma_int_repr_injective;
use crate::digits::push_int;
use crate::digits::parse_i64;

/// The parts joined with a separator character between them.
pub open spec fn join(parts: Seq<Seq<char>>, sep: char) -> Seq<char>
    decreases parts.len(),
{
    if parts.len() == 0 {
        Seq::empty()
    } else if parts.len() == 1 {
        parts[0]
    } else {
        join(parts.drop_last(), sep) + seq![sep] + parts.last()
    }
}

/// A string cut at every occurrence of the separator; always at least
/// one part, and one more part than there are separators.
pub open spec fn split_at_seps(s: Seq<char>, sep: char) -> Seq<Seq<char>>
    decreases s.len(),
{
    if s.len() == 0 {
        seq![Seq::empty()]
    } else {
        let p = split_at_seps(s.drop_last(), sep);
        if s.last() == sep {
            p.push(Seq::empty())
        } else {
            p.update(p.len() - 1, p.last().push(s.last()))
        }
    }
}

pub open spec fn sep_free(s: Seq<char>, sep: char) -> bool {
    forall|i: int| 0 <= i < s.len() ==> #[trigger] s[i] != sep
}

pub proof fn lemma_split_len(s: Seq<char>, sep: char)
    ensures
        split_at_seps(s, sep).len() >= 1,
    decreases s.len(),
{
    if s.len() > 0 {
        lemma_split_len(s.drop_last(), sep);
    }
}

/// Appending separator-free text only extends the last part.
pub proof fn lemma_split_append_free(s: Seq<char>, t: Seq<char>, sep: char)
    requires
        sep_free(t, sep),
    ensures
        split_at_seps(s + t, sep) =~~= split_at_seps(s, sep).update(
            split_at_seps(s, sep).len() - 1,
            split_at_seps(s, sep).last() + t,
        ),
    decreases t.len(),
{
    lemma_split_len(s, sep);
    if t.len() == 0 {
        assert(s + t =~= s);
        assert(split_at_seps(s, sep).last() + t =~= split_at_seps(s, sep).last());
    } else {
        assert(sep_free(t.drop_last(), sep));
        lemma_split_append_free(s, t.drop_last(), sep);
        assert((s + t).drop_last() =~= s + t.drop_last());
        assert((s + t).last() == t.last());
        assert(t.last() != sep);
        assert(split_at_seps(s, sep).last() + t
            =~= (split_at_seps(s, sep).last() + t.drop_last()).push(t.last()));
    }
}

/// Appending the separator itself opens a fresh empty part.
pub proof fn lemma_split_push_sep(s: Seq<char>, sep: char)
    ensures
        split_at_seps(s.push(sep), sep) =~~= split_at_seps(s, sep).push(Seq::empty()),
{
    assert(s.push(sep).drop_last() =~= s);
}

/// Splitting the join of separator-free parts gives the parts back.
pub proof fn lemma_split_join(parts: Seq<Seq<char>>, sep: char)
    requires
        parts.len() >= 1,
        forall|i: int| 0 <= i < parts.len() ==> sep_free(#[trigger] parts[i], sep),
    ensures
        split_at_seps(join(parts, sep), sep) =~~= parts,
    decreases parts.len(),
{
    if parts.len() == 1 {
        assert(join(parts, sep) == parts[0]);
        lemma_split_append_free(Seq::empty(), parts[0], sep);
        assert(Seq::empty() + parts[0] =~= parts[0]);
        assert(split_at_seps(Seq::<char>::empty(), sep).last() + parts[0] =~= parts[0]);
    } else {
        let head = parts.drop_last();
        assert(forall|i: int| 0 <= i < head.len() ==> sep_free(#[trigger] head[i], sep));
        lemma_split_join(head, sep);
        let a = join(head, sep);
        assert(join(parts, sep) =~= (a.push(sep)) + parts.last());
        lemma_split_push_sep(a, sep);
        lemma_split_append_free(a.push(sep), parts.last(), sep);
        assert(split_at_seps(a.push(sep), sep).last() + parts.last() =~= parts.last());
    }
}

/// The canonical token for a list of ids.
pub open spec fn encode_ids_spec(ids: Seq<i64>) -> Seq<char> {
    seq!['['] + join(ids.map_values(|v: i64| int_repr(v as int)), ',') + seq![']']
}

/// The decoded value of a token: the unique list whose canonical
/// encoding is the token, if there is one.
pub open spec fn ids_of(s: Seq<char>) -> Option<Seq<i64>> {
    if exists|ids: Seq<i64>| s == encode_ids_spec(ids) {
        Some(choose|ids: Seq<i64>| s == encode_ids_spec(ids))
    } else {
        None
    }
}

/// Canonical integer strings are nonempty and contain no comma and
/// no bracket.
pub proof fn lemma_int_repr_token_chars(v: int)
    ensures
        int_repr(v).len() >= 1,
        sep_free(int_repr(v), ','),
        sep_free(int_repr(v), '['),
        sep_free(int_repr(v), ']'),
{
    lemma_int_repr_chars(v);
}

/// The join of the encoded parts of a nonempty list is nonempty and
/// ends with a character that is not a bracket.
proof fn lemma_join_ids_last(parts: Seq<Seq<char>>, sep: char)
    requires
        parts.len() >= 1,
        forall|i: int| 0 <= i < parts.len() ==> (#[trigger] parts[i]).len() >= 1,
    ensures
        join(parts, sep).len() >= 1,
        join(parts, sep).last() == parts.last().last(),
    decreases parts.len(),
{
    if parts.len() > 1 {
        lemma_join_ids_last(parts.drop_last(), sep);
    }
}

/// Two lists with the same token are the same list.
pub proof fn lemma_encode_ids_injective(a: Seq<i64>, b: Seq<i64>)
    requires
        encode_ids_spec(a) == encode_ids_spec(b),
    ensures
        a == b,
{
    let pa = a.map_values(|v: i64| int_repr(v as int));
    let pb = b.map_values(|v: i64| int_repr(v as int));
    assert forall|i: int| 0 <= i < pa.len() implies sep_free(#[trigger] pa[i], ',')
        && pa[i].len() >= 1 by {
        lemma_int_repr_token_chars(a[i] as int);
    }
    assert forall|i: int| 0 <= i < pb.len() implies sep_free(#[trigger] pb[i], ',')
        && pb[i].len() >= 1 by {
        lemma_int_repr_token_chars(b[i] as int);
    }
    assert(join(pa, ',') =~= encode_ids_spec(a).subrange(1, encode_ids_spec(a).len() - 1));
    assert(join(pb, ',') =~= encode_ids_spec(b).subrange(1, encode_ids_spec(b).len() - 1));
    if a.len() == 0 && b.len() == 0 {
        assert(a =~= b);
    } else if a.len() == 0 {
        lemma_join_ids_last(pb, ',');
        assert(join(pa, ',').len() == 0);
    } else if b.len() == 0 {
        lemma_join_ids_last(pa, ',');
        assert(join(pb, ',').len() == 0);
    } else {
        lemma_split_join(pa, ',');
        lemma_split_join(pb, ',');
        assert(pa =~~= pb);
        assert forall|i: int| 0 <= i < a.len() implies a[i] == b[i] by {
            assert(pa[i] == pb[i]);
            lemma_int_repr_injective(a[i] as int, b[i] as int);
        }
        assert(a =~= b);
    }
}

/// Decoding the canonical token of a list gives the list back.
pub proof fn lemma_ids_roundtrip(ids: Seq<i64>)
    ensures
        ids_of(encode_ids_spec(ids)) == Some(ids),
{
    let s = encode_ids_spec(ids);
    assert(exists|x: Seq<i64>| s == encode_ids_spec(x));
    let w = choose|x: Seq<i64>| s == encode_ids_spec(x);
    lemma_encode_ids_injective(w, ids);
}

/// Encodes a list of ids as its canonical token.
pub fn encode_ids(ids: &Vec<i64>) -> (r: String)
    ensures
        r@ == encode_ids_spec(ids@),
{
    let mut s = String::new();
    crate::trusted::push_char(&mut s, '[');
    let mut i: usize = 0;
    while i < ids.len()
        invariant
            0 <= i <= ids@.len(),
            s@ == seq!['['] + join(
                ids@.take(i as int).map_values(|v: i64| int_repr(v as int)),
                ',',
            ),
        decreases ids@.len() - i,
    {
        if i > 0 {
            crate::trusted::push_char(&mut s, ',');
        }
        let ghost parts = ids@.take(i as int).map_values(|v: i64| int_repr(v as int));
        push_int(&mut s, ids[i]);
        i = i + 1;
        proof {
            let parts2 = ids@.take(i as int).map_values(|v: i64| int_repr(v as int));
            assert(parts2 =~~= parts.push(int_repr(ids@[i - 1] as int)));
            assert(parts2.drop_last() =~~= parts);
            if parts.len() == 0 {
                assert(join(parts2, ',') =~= int_repr(ids@[i - 1] as int));
                assert(s@ =~= seq!['['] + join(parts2, ','));
            } else {
                assert(join(parts2, ',')
                    =~= join(parts, ',') + seq![','] + int_repr(ids@[i - 1] as int));
                assert(s@ =~= seq!['['] + join(parts2, ','));
            }
        }
    }
    crate::trusted::push_char(&mut s, ']');
    proof {
        assert(ids@.take(ids@.len() as int) =~= ids@);
        assert(s@ =~= encode_ids_spec(ids@));
    }
    s
}

/// Compares two strings character by character.
pub fn str_eq(a: &str, b: &str) -> (r: bool)
    ensures
        r == (a@ == b@),
{
    let na = a.unicode_len();
    let nb = b.unicode_len();
    if na != nb {
        return false;
    }
    let mut i: usize = 0;
    while i < na
        invariant
            0 <= i <= na,
            na == a@.len(),
            na == b@.len(),
            a@.take(i as int) == b@.take(i as int),
        decreases na - i,
    {
        if a.get_char(i) != b.get_char(i) {
            assert(a@[i as int] != b@[i as int]);
            return false;
        }
        i = i + 1;
        assert(a@.take(i as int) =~= a@.take(i - 1).push(a@[i - 1]));
        assert(b@.take(i as int) =~= b@.take(i - 1).push(b@[i - 1]));
    }
    proof {
        assert(a@ =~= a@.take(na as int));
        assert(b@ =~= b@.take(na as int));
    }
    true
}
/// Decodes a token into the list of ids it canonically encodes, or
/// reports the token as corrupt.
pub fn decode_ids(s: &str) -> (r: Option<Vec<i64>>)
    ensures
        r matches Some(v) ==> ids_of(s@) == Some(v@),
        r is None ==> ids_of(s@) is None,
{
    let n = s.unicode_len();
    if n < 2 || s.get_char(0) != '[' || s.get_char(n - 1) != ']' {
        proof {
            if ids_of(s@) is Some {
                let ids = choose|ids: Seq<i64>| s@ == encode_ids_spec(ids);
                assert(s@ == encode_ids_spec(ids));
                assert(s@[0] == '[');
                assert(s@[s@.len() - 1] == ']');
            }
        }
        return None;
    }
    // Scan the interior into comma-separated raw parts.
    let ghost inner = s@.subrange(1, n as int - 1);
    let mut texts: Vec<String> = Vec::new();
    let mut cur = String::new();
    let mut i: usize = 1;
    proof {
        assert(texts@.map_values(|t: String| t@).push(cur@)
            =~~= split_at_seps(inner.take(0), ','));
    }
    while i < n - 1
        invariant
            1 <= i <= n - 1,
            n == s@.len(),
            n >= 2,
            inner == s@.subrange(1, n as int - 1),
            texts@.map_values(|t: String| t@).push(cur@)
                =~~= split_at_seps(inner.take(i - 1), ','),
        decreases n - i,
    {
        let c = s.get_char(i);
        let ghost done = split_at_seps(inner.take(i - 1), ',');
        let ghost old_texts = texts@;
        let ghost old_cur = cur@;
        proof {
            lemma_split_len(inner.take(i - 1), ',');
            assert(inner.take(i as int).drop_last() =~= inner.take(i - 1));
            assert(inner.take(i as int).last() == inner[i - 1]);
            assert(inner[i - 1] == s@[i as int]);
        }
        if c == ',' {
            texts.push(cur);
            cur = String::new();
            proof {
                assert(texts@.map_values(|t: String| t@)
                    =~~= old_texts.map_values(|t: String| t@).push(old_cur));
                assert(texts@.map_values(|t: String| t@).push(cur@)
                    =~~= split_at_seps(inner.take(i as int), ','));
            }
        } else {
            crate::trusted::push_char(&mut cur, c);
            proof {
                assert(done.last() == old_cur);
                assert(texts@.map_values(|t: String| t@).push(cur@)
                    =~~= done.update(done.len() - 1, done.last().push(c)));
                assert(texts@.map_values(|t: String| t@).push(cur@)
                    =~~= split_at_seps(inner.take(i as int), ','));
            }
        }
        i = i + 1;
    }
    let ghost final_cur = cur@;
    let ghost pre_texts = texts@;
    texts.push(cur);
    proof {
        assert(inner.take(n as int - 2) =~= inner);
        assert(texts@.map_values(|t: String| t@)
            =~~= pre_texts.map_values(|t: String| t@).push(final_cur));
    }
    let ghost raw = split_at_seps(inner, ',');
    assert(texts@.map_values(|t: String| t@) =~~= raw);
    // Parse each raw part as a canonical integer; re-encode each to
    // insist on canonical part text.
    let mut vals: Vec<i64> = Vec::new();
    if n > 2 {
        let mut k: usize = 0;
        while k < texts.len()
            invariant
                0 <= k <= texts@.len(),
                vals@.len() == k,
                n == s@.len(),
                n > 2,
                s@[0] == '[',
                s@[n - 1] == ']',
                inner == s@.subrange(1, n as int - 1),
                raw == split_at_seps(inner, ','),
                texts@.map_values(|t: String| t@) == raw,
                forall|j: int| 0 <= j < k ==>
                    raw[j] == int_repr(#[trigger] vals@[j] as int),
            decreases texts@.len() - k,
        {
            let ghost tv = texts@[k as int]@;
            proof {
                assert(raw[k as int] == texts@.map_values(|t: String| t@)[k as int]);
            }
            match parse_i64(texts[k].as_str()) {
                Some(v) => {
                    let mut enc = String::new();
                    push_int(&mut enc, v);
                    proof {
                        assert(enc@ =~= int_repr(v as int));
                    }
                    if !str_eq(enc.as_str(), texts[k].as_str()) {
                        proof {
                            if ids_of(s@) is Some {
                                let ids = choose|ids: Seq<i64>| s@ == encode_ids_spec(ids);
                                lemma_canonical_parts(s@, inner, ids);
                                assert(ids.len() >= 1);
                                assert(tv == int_repr(ids[k as int] as int));
                            }
                        }
                        return None;
                    }
                    vals.push(v);
                }
                None => {
                    proof {
                        if ids_of(s@) is Some {
                            let ids = choose|ids: Seq<i64>| s@ == encode_ids_spec(ids);
                            lemma_canonical_parts(s@, inner, ids);
                            assert(ids.len() >= 1);
                            assert(tv == int_repr(ids[k as int] as int));
                        }
                    }
                    return None;
                }
            }
            k = k + 1;
        }
    }
    // Accept only if re-encoding reproduces the token exactly.
    let enc = encode_ids(&vals);
    if str_eq(enc.as_str(), s) {
        proof {
            lemma_ids_roundtrip(vals@);
        }
        Some(vals)
    } else {
        proof {
            if ids_of(s@) is Some {
                let ids = choose|ids: Seq<i64>| s@ == encode_ids_spec(ids);
                lemma_decode_complete(s@, inner, raw, vals@, ids);
            }
        }
        None
    }
}

/// If the token is canonical for some list, its interior splits into
/// exactly the canonical integer strings of that list.
proof fn lemma_canonical_parts(s: Seq<char>, inner: Seq<char>, ids: Seq<i64>)
    requires
        s == encode_ids_spec(ids),
        s.len() >= 2,
        inner == s.subrange(1, s.len() - 1),
    ensures
        ids.len() == 0 ==> inner.len() == 0,
        ids.len() >= 1 ==> split_at_seps(inner, ',')
            =~~= ids.map_values(|v: i64| int_repr(v as int)),
{
    let parts = ids.map_values(|v: i64| int_repr(v as int));
    assert(inner =~= join(parts, ','));
    if ids.len() >= 1 {
        assert forall|i: int| 0 <= i < parts.len() implies
            sep_free(#[trigger] parts[i], ',') by {
            lemma_int_repr_token_chars(ids[i] as int);
        }
        lemma_split_join(parts, ',');
    }
}

/// Completeness: if a candidate decode parsed every part back to its
/// own canonical string, re-encoding it reproduces any canonical
/// source token, so a failed comparison rules a canonical token out.
proof fn lemma_decode_complete(
    s: Seq<char>,
    inner: Seq<char>,
    raw: Seq<Seq<char>>,
    vals: Seq<i64>,
    ids: Seq<i64>,
)
    requires
        s == encode_ids_spec(ids),
        s.len() >= 2,
        inner == s.subrange(1, s.len() - 1),
        raw == split_at_seps(inner, ','),
        inner.len() == 0 ==> vals.len() == 0,
        inner.len() > 0 ==> vals.len() == raw.len(),
        forall|j: int| 0 <= j < vals.len() ==> raw[j] == int_repr(#[trigger] vals[j] as int),
    ensures
        encode_ids_spec(vals) == s,
{
    lemma_canonical_parts(s, inner, ids);
    if ids.len() == 0 {
        assert(inner.len() == 0);
        assert(vals =~= ids);
    } else {
        let parts = ids.map_values(|v: i64| int_repr(v as int));
        assert(raw =~~= parts);
        assert(vals.len() == ids.len());
        assert forall|j: int| 0 <= j < vals.len() implies vals[j] == ids[j] by {
            assert(int_repr(vals[j] as int) == int_repr(ids[j] as int));
            lemma_int_repr_injective(vals[j] as int, ids[j] as int);
        }
        assert(vals =~= ids);
    }
}

} // verus!
