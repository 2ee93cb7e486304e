//! The encoded-list codec for string values: a list of strings is
//! stored in a single scalar field as a bracketed token in which each
//! item is escaped and followed by a comma, such as `[a,b,]`. The
//! escape maps a backslash to `\b` and a comma to `\c`, so that the
//! encoded items are comma-free and the token splits unambiguously.
//! Decoding is strict: only the canonical encoding of a list is
//! accepted.

use vstd::prelude::*;

verus! {

use crate::codec::join;
use crate::codec::split_at_seps;
use crate::codec::sep_free;
use crate::codec::lemma_split_join;
use crate::codec::lemma_split_push_sep;
use crate::codec::lemma_split_len;
use crate::codec::str_eq;

/// The escape of one character.
pub open spec fn esc_char(c: char) -> Seq<char> {
    if c == '\\' {
        seq!['\\', 'b']
    } else if c == ',' {
        seq!['\\', 'c']
    } else {
        seq![c]
    }
}

/// The escape of a string.
pub open spec fn esc(s: Seq<char>) -> Seq<char>
    decreases s.len(),
{
    if s.len() == 0 {
        Seq::empty()
    } else {
        esc_char(s[0]) + esc(s.drop_first())
    }
}

/// The inverse of the escape, when the text is well formed.
pub open spec fn unesc(t: Seq<char>) -> Option<Seq<char>>
    decreases t.len(),
{
    if t.len() == 0 {
        Some(Seq::empty())
    } else if t[0] == '\\' {
        if t.len() >= 2 && (t[1] == 'b' || t[1] == 'c') {
            let c = if t[1] == 'b' { '\\' } else { ',' };
            match unesc(t.skip(2)) {
                Some(r) => Some(seq![c] + r),
                None => None,
            }
        } else {
            None
        }
    } else {
        match unesc(t.skip(1)) {
            Some(r) => Some(seq![t[0]] + r),
            None => None,
        }
    }
}

/// The escape distributes over concatenation.
pub proof fn lemma_esc_append(a: Seq<char>, b: Seq<char>)
    ensures
        esc(a + b) == esc(a) + esc(b),
    decreases a.len(),
{
    if a.len() == 0 {
        assert(a + b =~= b);
        assert(esc(a) + esc(b) =~= esc(b));
    } else {
        lemma_esc_append(a.drop_first(), b);
        assert((a + b).drop_first() =~= a.drop_first() + b);
        assert((a + b)[0] == a[0]);
        assert(esc_char(a[0]) + (esc(a.drop_first()) + esc(b))
            =~= (esc_char(a[0]) + esc(a.drop_first())) + esc(b));
    }
}

/// Escaped text contains no comma.
pub proof fn lemma_esc_comma_free(s: Seq<char>)
    ensures
        sep_free(esc(s), ','),
    decreases s.len(),
{
    if s.len() > 0 {
        lemma_esc_comma_free(s.drop_first());
        assert forall|i: int| 0 <= i < esc(s).len() implies #[trigger] esc(s)[i] != ',' by {
            if i >= esc_char(s[0]).len() {
                assert(esc(s)[i] == esc(s.drop_first())[i - esc_char(s[0]).len()]);
            }
        }
    }
}

/// Unescaping the escape of a string gives the string back.
pub proof fn lemma_unesc_esc(s: Seq<char>)
    ensures
        unesc(esc(s)) == Some(s),
    decreases s.len(),
{
    if s.len() == 0 {
    } else {
        lemma_unesc_esc(s.drop_first());
        let t = esc(s);
        if s[0] == '\\' || s[0] == ',' {
            assert(t.skip(2) =~= esc(s.drop_first()));
            assert(seq![s[0]] + s.drop_first() =~= s);
        } else {
            assert(t[0] == s[0]);
            assert(t.skip(1) =~= esc(s.drop_first()));
            assert(seq![s[0]] + s.drop_first() =~= s);
        }
    }
}

/// The escape is injective.
pub proof fn lemma_esc_injective(a: Seq<char>, b: Seq<char>)
    requires
        esc(a) == esc(b),
    ensures
        a == b,
{
    lemma_unesc_esc(a);
    lemma_unesc_esc(b);
}

/// The flattened interior of a token: every escaped item followed by
/// a comma.
pub open spec fn flat_strs(items: Seq<Seq<char>>) -> Seq<char>
    decreases items.len(),
{
    if items.len() == 0 {
        Seq::empty()
    } else {
        flat_strs(items.drop_last()) + esc(items.last()) + seq![',']
    }
}

/// The canonical token for a list of strings.
pub open spec fn encode_strs_spec(items: Seq<Seq<char>>) -> Seq<char> {
    seq!['['] + flat_strs(items) + seq![']']
}

/// The decoded value of a token: the unique list whose canonical
/// encoding is the token, if there is one.
pub open spec fn strs_of(s: Seq<char>) -> Option<Seq<Seq<char>>> {
    if exists|items: Seq<Seq<char>>| s == encode_strs_spec(items) {
        Some(choose|items: Seq<Seq<char>>| s == encode_strs_spec(items))
    } else {
        None
    }
}

/// The interior of a nonempty list is the comma-join of the escaped
/// items with one trailing comma.
pub proof fn lemma_flat_as_join(items: Seq<Seq<char>>)
    requires
        items.len() >= 1,
    ensures
        flat_strs(items) == join(items.map_values(|x: Seq<char>| esc(x)), ',').push(','),
    decreases items.len(),
{
    let parts = items.map_values(|x: Seq<char>| esc(x));
    if items.len() == 1 {
        assert(flat_strs(items.drop_last()) =~= Seq::<char>::empty());
        assert(flat_strs(items) =~= esc(items[0]).push(','));
        assert(join(parts, ',') == parts[0]);
    } else {
        lemma_flat_as_join(items.drop_last());
        let hp = items.drop_last().map_values(|x: Seq<char>| esc(x));
        assert(parts.drop_last() =~~= hp);
        assert(join(parts, ',') == join(hp, ',') + seq![','] + parts.last());
        assert(flat_strs(items)
            =~= (join(hp, ',').push(',') + esc(items.last())).push(','));
        assert(join(parts, ',').push(',')
            =~= (join(hp, ',').push(',') + esc(items.last())).push(','));
    }
}

/// Splitting the interior of a canonical token gives the escaped
/// items and one final empty part.
pub proof fn lemma_split_flat(items: Seq<Seq<char>>)
    requires
        items.len() >= 1,
    ensures
        split_at_seps(flat_strs(items), ',')
            =~~= items.map_values(|x: Seq<char>| esc(x)).push(Seq::empty()),
{
    let parts = items.map_values(|x: Seq<char>| esc(x));
    lemma_flat_as_join(items);
    assert forall|i: int| 0 <= i < parts.len() implies sep_free(#[trigger] parts[i], ',') by {
        lemma_esc_comma_free(items[i]);
    }
    lemma_split_join(parts, ',');
    lemma_split_push_sep(join(parts, ','), ',');
}

/// Two lists with the same token are the same list.
pub proof fn lemma_encode_strs_injective(a: Seq<Seq<char>>, b: Seq<Seq<char>>)
    requires
        encode_strs_spec(a) == encode_strs_spec(b),
    ensures
        a == b,
{
    assert(flat_strs(a) =~= encode_strs_spec(a).subrange(1, encode_strs_spec(a).len() - 1));
    assert(flat_strs(b) =~= encode_strs_spec(b).subrange(1, encode_strs_spec(b).len() - 1));
    if a.len() == 0 && b.len() == 0 {
        assert(a =~~= b);
    } else if a.len() == 0 {
        assert(flat_strs(b).len() >= 1);
        assert(flat_strs(a).len() == 0);
    } else if b.len() == 0 {
        assert(flat_strs(a).len() >= 1);
        assert(flat_strs(b).len() == 0);
    } else {
        lemma_split_flat(a);
        lemma_split_flat(b);
        let pa = a.map_values(|x: Seq<char>| esc(x));
        let pb = b.map_values(|x: Seq<char>| esc(x));
        assert(pa.push(Seq::empty()) == pb.push(Seq::empty()));
        assert(pa.len() == pb.len());
        assert forall|i: int| 0 <= i < pa.len() implies pa[i] == pb[i] by {
            assert(pa.push(Seq::<char>::empty())[i] == pb.push(Seq::<char>::empty())[i]);
        }
        assert(pa =~~= pb);
        assert forall|i: int| 0 <= i < a.len() implies a[i] == b[i] by {
            assert(pa[i] == pb[i]);
            lemma_esc_injective(a[i], b[i]);
        }
        assert(a =~~= b);
    }
}

/// Decoding the canonical token of a list gives the list back.
pub proof fn lemma_strs_roundtrip(items: Seq<Seq<char>>)
    ensures
        strs_of(encode_strs_spec(items)) == Some(items),
{
    let s = encode_strs_spec(items);
    assert(exists|x: Seq<Seq<char>>| s == encode_strs_spec(x));
    let w = choose|x: Seq<Seq<char>>| s == encode_strs_spec(x);
    lemma_encode_strs_injective(w, items);
}

/// The views of a vector of strings.
pub open spec fn views_of(ss: Seq<String>) -> Seq<Seq<char>> {
    ss.map_values(|t: String| t@)
}

/// Appends the escape of one string.
fn push_escaped(out: &mut String, item: &str)
    ensures
        final(out)@ == old(out)@ + esc(item@),
{
    let n = item.unicode_len();
    let mut j: usize = 0;
    proof {
        assert(old(out)@ + esc(item@.take(0)) =~= old(out)@);
    }
    while j < n
        invariant
            0 <= j <= n,
            n == item@.len(),
            out@ == old(out)@ + esc(item@.take(j as int)),
        decreases n - j,
    {
        let c = item.get_char(j);
        if c == '\\' {
            crate::trusted::push_char(out, '\\');
            crate::trusted::push_char(out, 'b');
        } else if c == ',' {
            crate::trusted::push_char(out, '\\');
            crate::trusted::push_char(out, 'c');
        } else {
            crate::trusted::push_char(out, c);
        }
        j = j + 1;
        proof {
            lemma_esc_append(item@.take(j - 1), seq![item@[j - 1]]);
            assert(item@.take(j as int) =~= item@.take(j - 1) + seq![item@[j - 1]]);
            assert(seq![item@[j - 1]].drop_first() =~= Seq::<char>::empty());
            assert(esc(Seq::<char>::empty()) =~= Seq::<char>::empty());
            assert(esc(seq![item@[j - 1]])
                =~= esc_char(item@[j - 1]) + esc(Seq::<char>::empty()));
            assert(esc(seq![item@[j - 1]]) =~= esc_char(item@[j - 1]));
            assert(out@ =~= old(out)@ + esc(item@.take(j as int)));
        }
    }
    proof {
        assert(item@.take(n as int) =~= item@);
    }
}

/// Encodes a list of strings as its canonical token.
pub fn encode_strs(items: &Vec<String>) -> (r: String)
    ensures
        r@ == encode_strs_spec(views_of(items@)),
{
    let mut s = String::new();
    crate::trusted::push_char(&mut s, '[');
    let mut i: usize = 0;
    proof {
        assert(flat_strs(views_of(items@.take(0))) =~= Seq::<char>::empty());
        assert(s@ =~= seq!['['] + flat_strs(views_of(items@.take(0))));
    }
    while i < items.len()
        invariant
            0 <= i <= items@.len(),
            s@ == seq!['['] + flat_strs(views_of(items@.take(i as int))),
        decreases items@.len() - i,
    {
        push_escaped(&mut s, items[i].as_str());
        crate::trusted::push_char(&mut s, ',');
        i = i + 1;
        proof {
            let prev = views_of(items@.take(i - 1));
            let nowv = views_of(items@.take(i as int));
            assert(nowv.drop_last() =~~= prev);
            assert(nowv.last() == items@[i - 1]@);
            assert(s@ =~= seq!['['] + flat_strs(nowv));
        }
    }
    crate::trusted::push_char(&mut s, ']');
    proof {
        assert(items@.take(items@.len() as int) =~= items@);
        assert(s@ =~= encode_strs_spec(views_of(items@)));
    }
    s
}

/// Unescapes one raw part. On the escape of any string it returns
/// that string.
fn unescape(t: &str) -> (r: Option<String>)
    ensures
        r matches Some(u) ==> unesc(t@) == Some(u@),
        r is None ==> unesc(t@) is None,
{
    let n = t.unicode_len();
    let mut out = String::new();
    let mut i: usize = 0;
    proof {
        assert(t@.skip(0) =~= t@);
        match unesc(t@) {
            Some(rest) => {
                assert(out@ + rest =~= rest);
            }
            None => {}
        }
    }
    while i < n
        invariant
            0 <= i <= n,
            n == t@.len(),
            match unesc(t@.skip(i as int)) {
                Some(rest) => unesc(t@) == Some(out@ + rest),
                None => unesc(t@) is None,
            },
        decreases n - i,
    {
        let c = t.get_char(i);
        let ghost tail = t@.skip(i as int);
        let ghost old_out = out@;
        if c == '\\' {
            if i + 1 >= n {
                assert(unesc(tail) is None);
                return None;
            }
            let c2 = t.get_char(i + 1);
            proof {
                assert(tail[0] == c);
                assert(tail[1] == c2);
            }
            if c2 == 'b' {
                crate::trusted::push_char(&mut out, '\\');
            } else if c2 == 'c' {
                crate::trusted::push_char(&mut out, ',');
            } else {
                assert(unesc(tail) is None);
                return None;
            }
            i = i + 2;
            proof {
                assert(tail.skip(2) =~= t@.skip(i as int));
                let mapped: char = if c2 == 'b' { '\\' } else { ',' };
                assert(out@ == old_out.push(mapped));
                match unesc(t@.skip(i as int)) {
                    Some(rest) => {
                        assert(unesc(tail) == Some(seq![mapped] + rest));
                        assert(unesc(t@) == Some(old_out + (seq![mapped] + rest)));
                        assert(old_out + (seq![mapped] + rest) =~= out@ + rest);
                    }
                    None => {
                        assert(unesc(tail) is None);
                    }
                }
            }
        } else {
            proof {
                assert(tail[0] == c);
            }
            crate::trusted::push_char(&mut out, c);
            i = i + 1;
            proof {
                assert(tail.skip(1) =~= t@.skip(i as int));
                assert(out@ == old_out.push(c));
                match unesc(t@.skip(i as int)) {
                    Some(rest) => {
                        assert(unesc(tail) == Some(seq![c] + rest));
                        assert(unesc(t@) == Some(old_out + (seq![c] + rest)));
                        assert(old_out + (seq![c] + rest) =~= out@ + rest);
                    }
                    None => {
                        assert(unesc(tail) is None);
                    }
                }
            }
        }
    }
    proof {
        assert(t@.skip(n as int) =~= Seq::<char>::empty());
        assert(unesc(Seq::<char>::empty()) == Some(Seq::<char>::empty()));
        assert(out@ + Seq::<char>::empty() =~= out@);
    }
    Some(out)
}

/// Decodes a token into the list of strings it canonically encodes,
/// or reports the token as corrupt.
pub fn decode_strs(s: &str) -> (r: Option<Vec<String>>)
    ensures
        r matches Some(v) ==> strs_of(s@) == Some(views_of(v@)),
        r is None ==> strs_of(s@) is None,
{
    let n = s.unicode_len();
    if n < 2 || s.get_char(0) != '[' || s.get_char(n - 1) != ']' {
        proof {
            if strs_of(s@) is Some {
                let items = choose|items: Seq<Seq<char>>| s@ == encode_strs_spec(items);
                assert(s@[0] == '[');
                assert(s@[s@.len() - 1] == ']');
            }
        }
        return None;
    }
    let ghost inner = s@.subrange(1, n as int - 1);
    let mut texts: Vec<String> = Vec::new();
    let mut cur = String::new();
    let mut i: usize = 1;
    proof {
        assert(texts@.map_values(|t: String| t@).push(cur@)
            =~~= split_at_seps(inner.take(0), ','));
    }
    while i < n - 1
        invariant
            1 <= i <= n - 1,
            n == s@.len(),
            n >= 2,
            inner == s@.subrange(1, n as int - 1),
            texts@.map_values(|t: String| t@).push(cur@)
                =~~= split_at_seps(inner.take(i - 1), ','),
        decreases n - i,
    {
        let c = s.get_char(i);
        let ghost done = split_at_seps(inner.take(i - 1), ',');
        let ghost old_texts = texts@;
        let ghost old_cur = cur@;
        proof {
            lemma_split_len(inner.take(i - 1), ',');
            assert(inner.take(i as int).drop_last() =~= inner.take(i - 1));
            assert(inner.take(i as int).last() == inner[i - 1]);
            assert(inner[i - 1] == s@[i as int]);
        }
        if c == ',' {
            texts.push(cur);
            cur = String::new();
            proof {
                assert(texts@.map_values(|t: String| t@)
                    =~~= old_texts.map_values(|t: String| t@).push(old_cur));
                assert(texts@.map_values(|t: String| t@).push(cur@)
                    =~~= split_at_seps(inner.take(i as int), ','));
            }
        } else {
            crate::trusted::push_char(&mut cur, c);
            proof {
                assert(done.last() == old_cur);
                assert(texts@.map_values(|t: String| t@).push(cur@)
                    =~~= done.update(done.len() - 1, done.last().push(c)));
                assert(texts@.map_values(|t: String| t@).push(cur@)
                    =~~= split_at_seps(inner.take(i as int), ','));
            }
        }
        i = i + 1;
    }
    let ghost final_cur = cur@;
    let ghost pre_texts = texts@;
    let last_empty = cur.as_str().unicode_len() == 0;
    texts.push(cur);
    proof {
        assert(inner.take(n as int - 2) =~= inner);
        assert(texts@.map_values(|t: String| t@)
            =~~= pre_texts.map_values(|t: String| t@).push(final_cur));
    }
    let ghost raw = split_at_seps(inner, ',');
    assert(texts@.map_values(|t: String| t@) =~~= raw);
    let mut items: Vec<String> = Vec::new();
    if n > 2 {
        if !last_empty {
            proof {
                if strs_of(s@) is Some {
                    let its = choose|its: Seq<Seq<char>>| s@ == encode_strs_spec(its);
                    assert(inner =~= flat_strs(its));
                    assert(its.len() >= 1);
                    lemma_split_flat(its);
                    assert(raw.last().len() == 0);
                }
            }
            return None;
        }
        let m = texts.len() - 1;
        let mut k: usize = 0;
        while k < m
            invariant
                0 <= k <= m,
                m == texts@.len() - 1,
                items@.len() == k,
                n == s@.len(),
                n > 2,
                s@[0] == '[',
                s@[n - 1] == ']',
                inner == s@.subrange(1, n as int - 1),
                raw == split_at_seps(inner, ','),
                texts@.map_values(|t: String| t@) == raw,
                forall|j: int| 0 <= j < k ==>
                    unesc(raw[j]) == Some(#[trigger] items@[j]@),
            decreases m - k,
        {
            let ghost tv = texts@[k as int]@;
            proof {
                assert(raw[k as int] == texts@.map_values(|t: String| t@)[k as int]);
            }
            match unescape(texts[k].as_str()) {
                Some(u) => {
                    items.push(u);
                }
                None => {
                    proof {
                        if strs_of(s@) is Some {
                            let its = choose|its: Seq<Seq<char>>| s@ == encode_strs_spec(its);
                            assert(inner =~= flat_strs(its));
                            assert(its.len() >= 1);
                            lemma_split_flat(its);
                            assert(tv == esc(its[k as int]));
                            lemma_unesc_esc(its[k as int]);
                        }
                    }
                    return None;
                }
            }
            k = k + 1;
        }
    }
    let enc = encode_strs(&items);
    if str_eq(enc.as_str(), s) {
        proof {
            lemma_strs_roundtrip(views_of(items@));
        }
        Some(items)
    } else {
        proof {
            if strs_of(s@) is Some {
                let its = choose|its: Seq<Seq<char>>| s@ == encode_strs_spec(its);
                assert(inner =~= flat_strs(its));
                if n == 2 {
                    assert(flat_strs(its).len() == 0);
                    if its.len() >= 1 {
                        assert(flat_strs(its).len() >= 1);
                    }
                    assert(views_of(items@) =~~= its);
                } else {
                    assert(its.len() >= 1);
                    lemma_split_flat(its);
                    let pa = its.map_values(|x: Seq<char>| esc(x));
                    assert(raw =~~= pa.push(Seq::empty()));
                    assert(items@.len() == raw.len() - 1);
                    assert forall|j: int| 0 <= j < items@.len() implies
                        items@[j]@ == its[j] by {
                        assert(raw[j] == pa[j]);
                        assert(unesc(raw[j]) == Some(items@[j]@));
                        lemma_unesc_esc(its[j]);
                    }
                    assert(views_of(items@) =~~= its);
                }
                assert(encode_strs_spec(views_of(items@)) == s@);
            }
        }
        None
    }
}

} // verus!
