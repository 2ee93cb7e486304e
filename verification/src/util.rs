//! Small string utilities: percent-encoding for request signing, and
//! export-path normalization.

use vstd::prelude::*;

verus! {

use crate::store::is_space;

/// A character that percent-encoding leaves as it is.
pub open spec fn unreserved(c: char) -> bool {
    ||| 'A' <= c && c <= 'Z'
    ||| 'a' <= c && c <= 'z'
    ||| '0' <= c && c <= '9'
    ||| c == '-'
    ||| c == '.'
    ||| c == '_'
    ||| c == '~'
}

/// The uppercase hexadecimal digit characters.
pub open spec fn hex_char(d: int) -> char {
    if d == 0 { '0' }
    else if d == 1 { '1' }
    else if d == 2 { '2' }
    else if d == 3 { '3' }
    else if d == 4 { '4' }
    else if d == 5 { '5' }
    else if d == 6 { '6' }
    else if d == 7 { '7' }
    else if d == 8 { '8' }
    else if d == 9 { '9' }
    else if d == 10 { 'A' }
    else if d == 11 { 'B' }
    else if d == 12 { 'C' }
    else if d == 13 { 'D' }
    else if d == 14 { 'E' }
    else { 'F' }
}

/// The percent-encoding of one character: unreserved characters pass
/// through; any other is replaced by a percent sign and the two hex
/// digits of the low byte of its code point.
pub open spec fn url_encode_char(c: char) -> Seq<char> {
    if unreserved(c) {
        seq![c]
    } else {
        let b = (c as int) % 256;
        seq!['%', hex_char(b / 16), hex_char(b % 16)]
    }
}

/// The percent-encoding of a string.
pub open spec fn url_encode_spec(s: Seq<char>) -> Seq<char>
    decreases s.len(),
{
    if s.len() == 0 {
        Seq::empty()
    } else {
        url_encode_char(s[0]) + url_encode_spec(s.drop_first())
    }
}

/// Percent-encoding distributes over concatenation.
pub proof fn lemma_url_encode_append(a: Seq<char>, b: Seq<char>)
    ensures
        url_encode_spec(a + b) == url_encode_spec(a) + url_encode_spec(b),
    decreases a.len(),
{
    if a.len() == 0 {
        assert(a + b =~= b);
        assert(url_encode_spec(a) + url_encode_spec(b) =~= url_encode_spec(b));
    } else {
        lemma_url_encode_append(a.drop_first(), b);
        assert((a + b).drop_first() =~= a.drop_first() + b);
        assert((a + b)[0] == a[0]);
        assert(url_encode_char(a[0]) + (url_encode_spec(a.drop_first())
            + url_encode_spec(b))
            =~= (url_encode_char(a[0]) + url_encode_spec(a.drop_first()))
                + url_encode_spec(b));
    }
}

/// One hexadecimal digit character.
fn hex_digit(d: u32) -> (r: char)
    requires
        d < 16,
    ensures
        r == hex_char(d as int),
{
    if d == 0 { '0' }
    else if d == 1 { '1' }
    else if d == 2 { '2' }
    else if d == 3 { '3' }
    else if d == 4 { '4' }
    else if d == 5 { '5' }
    else if d == 6 { '6' }
    else if d == 7 { '7' }
    else if d == 8 { '8' }
    else if d == 9 { '9' }
    else if d == 10 { 'A' }
    else if d == 11 { 'B' }
    else if d == 12 { 'C' }
    else if d == 13 { 'D' }
    else if d == 14 { 'E' }
    else { 'F' }
}

/// Percent-encodes a string for use in a signed request.
pub fn url_encode(input: &str) -> (r: String)
    ensures
        r@ == url_encode_spec(input@),
{
    let n = input.unicode_len();
    let mut out = String::new();
    let mut i: usize = 0;
    proof {
        assert(url_encode_spec(input@.take(0)) =~= Seq::<char>::empty());
    }
    while i < n
        invariant
            0 <= i <= n,
            n == input@.len(),
            out@ == url_encode_spec(input@.take(i as int)),
        decreases n - i,
    {
        let c = input.get_char(i);
        let keep = (c >= 'A' && c <= 'Z') || (c >= 'a' && c <= 'z')
            || (c >= '0' && c <= '9') || c == '-' || c == '.' || c == '_' || c == '~';
        if keep {
            crate::trusted::push_char(&mut out, c);
        } else {
            let code: u32 = c as u32;
            let b: u32 = code % 256;
            crate::trusted::push_char(&mut out, '%');
            crate::trusted::push_char(&mut out, hex_digit(b / 16));
            crate::trusted::push_char(&mut out, hex_digit(b % 16));
        }
        i = i + 1;
        proof {
            lemma_url_encode_append(input@.take(i - 1), seq![input@[i - 1]]);
            assert(input@.take(i as int) =~= input@.take(i - 1) + seq![input@[i - 1]]);
            assert(seq![input@[i - 1]].drop_first() =~= Seq::<char>::empty());
            assert(url_encode_spec(Seq::<char>::empty()) =~= Seq::<char>::empty());
            assert(url_encode_spec(seq![input@[i - 1]]) =~= url_encode_char(input@[i - 1]));
            assert(out@ =~= url_encode_spec(input@.take(i as int)));
        }
    }
    proof {
        assert(input@.take(n as int) =~= input@);
    }
    out
}

/// The number of leading whitespace characters.
pub open spec fn lead_spaces(s: Seq<char>) -> int
    decreases s.len(),
{
    if s.len() > 0 && is_space(s[0]) {
        1 + lead_spaces(s.drop_first())
    } else {
        0
    }
}

/// The number of trailing whitespace characters.
pub open spec fn trail_spaces(s: Seq<char>) -> int
    decreases s.len(),
{
    if s.len() > 0 && is_space(s.last()) {
        1 + trail_spaces(s.drop_last())
    } else {
        0
    }
}

/// The string with surrounding whitespace removed.
pub open spec fn trim_spec(s: Seq<char>) -> Seq<char> {
    let t = s.skip(lead_spaces(s));
    t.take(t.len() - trail_spaces(t))
}

/// The normalized export path: an empty or blank path is replaced by
/// the project root; a leading `./` is stripped; a relative path is
/// joined under the root; an absolute path stands as it is.
pub open spec fn normalize_path_spec(path: Seq<char>, root: Seq<char>) -> Seq<char> {
    let trimmed = trim_spec(path);
    if trimmed.len() == 0 {
        root
    } else {
        let rel = if trimmed.len() >= 2 && trimmed[0] == '.' && trimmed[1] == '/' {
            trimmed.skip(2)
        } else {
            trimmed
        };
        if rel.len() > 0 && rel[0] == '/' {
            rel
        } else {
            root + seq!['/'] + rel
        }
    }
}

proof fn lemma_lead_spaces_bounds(s: Seq<char>)
    ensures
        0 <= lead_spaces(s) <= s.len(),
        forall|i: int| 0 <= i < lead_spaces(s) ==> is_space(#[trigger] s[i]),
        lead_spaces(s) < s.len() ==> !is_space(s[lead_spaces(s)]),
    decreases s.len(),
{
    if s.len() > 0 && is_space(s[0]) {
        lemma_lead_spaces_bounds(s.drop_first());
        assert forall|i: int| 0 <= i < lead_spaces(s) implies
            is_space(#[trigger] s[i]) by {
            if i > 0 {
                assert(s[i] == s.drop_first()[i - 1]);
            }
        }
        if lead_spaces(s) < s.len() {
            assert(s[lead_spaces(s)] == s.drop_first()[lead_spaces(s) - 1]);
        }
    }
}

proof fn lemma_trail_spaces_bounds(s: Seq<char>)
    ensures
        0 <= trail_spaces(s) <= s.len(),
        forall|i: int| s.len() - trail_spaces(s) <= i < s.len() ==>
            is_space(#[trigger] s[i]),
        trail_spaces(s) < s.len() ==> !is_space(s[s.len() - trail_spaces(s) - 1]),
    decreases s.len(),
{
    if s.len() > 0 && is_space(s.last()) {
        lemma_trail_spaces_bounds(s.drop_last());
        assert forall|i: int| s.len() - trail_spaces(s) <= i < s.len() implies
            is_space(#[trigger] s[i]) by {
            if i < s.len() - 1 {
                assert(s[i] == s.drop_last()[i]);
            }
        }
    }
}

/// Normalizes an export path against the given project root.
pub fn normalize_path(path: &str, root: &str) -> (r: String)
    ensures
        r@ == normalize_path_spec(path@, root@),
{
    let n = path.unicode_len();
    // Leading whitespace.
    let mut a: usize = 0;
    while a < n
        invariant
            0 <= a <= n,
            n == path@.len(),
            forall|i: int| 0 <= i < a ==> is_space(#[trigger] path@[i]),
        ensures
            0 <= a <= n,
            forall|i: int| 0 <= i < a ==> is_space(#[trigger] path@[i]),
            a < n ==> !is_space(path@[a as int]),
        decreases n - a,
    {
        let c = path.get_char(a);
        if !(c == ' ' || c == '\t' || c == '\n' || c == '\r' || c == '\u{b}'
            || c == '\u{c}') {
            break;
        }
        a = a + 1;
    }
    proof {
        lemma_lead_spaces_bounds(path@);
        lemma_lead_eq(path@, a as int);
    }
    // Trailing whitespace of the remainder.
    let mut b: usize = n;
    while b > a
        invariant
            a <= b <= n,
            n == path@.len(),
            forall|i: int| b <= i < n ==> is_space(#[trigger] path@[i]),
        ensures
            a <= b <= n,
            forall|i: int| b <= i < n ==> is_space(#[trigger] path@[i]),
            b > a ==> !is_space(path@[b - 1]),
        decreases b,
    {
        let c = path.get_char(b - 1);
        if !(c == ' ' || c == '\t' || c == '\n' || c == '\r' || c == '\u{b}'
            || c == '\u{c}') {
            break;
        }
        b = b - 1;
    }
    let ghost t = path@.skip(a as int);
    proof {
        lemma_trail_spaces_bounds(t);
        lemma_trail_eq(path@, a as int, b as int);
        assert(trim_spec(path@) =~= path@.subrange(a as int, b as int));
    }
    let trimmed = path.substring_char(a, b);
    proof {
        assert(trimmed@ =~= trim_spec(path@));
    }
    let tn = b - a;
    if tn == 0 {
        return root.to_owned();
    }
    let stripped: &str = if tn >= 2 && trimmed.get_char(0) == '.'
        && trimmed.get_char(1) == '/' {
        let s = trimmed.substring_char(2, tn);
        proof {
            assert(s@ =~= trim_spec(path@).skip(2));
        }
        s
    } else {
        trimmed
    };
    if stripped.unicode_len() > 0 && stripped.get_char(0) == '/' {
        return stripped.to_owned();
    }
    let mut out = root.to_owned();
    crate::trusted::push_char(&mut out, '/');
    let m = stripped.unicode_len();
    let mut i: usize = 0;
    while i < m
        invariant
            0 <= i <= m,
            m == stripped@.len(),
            out@ == root@ + seq!['/'] + stripped@.take(i as int),
        decreases m - i,
    {
        let c = stripped.get_char(i);
        crate::trusted::push_char(&mut out, c);
        i = i + 1;
        proof {
            assert(stripped@.take(i as int)
                =~= stripped@.take(i - 1).push(stripped@[i - 1]));
            assert((root@ + seq!['/'] + stripped@.take(i - 1)).push(stripped@[i - 1])
                =~= root@ + seq!['/'] + stripped@.take(i as int));
        }
    }
    proof {
        assert(stripped@.take(m as int) =~= stripped@);
    }
    out
}

/// A scan that stops at the first non-space finds the lead count.
proof fn lemma_lead_eq(s: Seq<char>, a: int)
    requires
        0 <= a <= s.len(),
        forall|i: int| 0 <= i < a ==> is_space(#[trigger] s[i]),
        a < s.len() ==> !is_space(s[a]),
    ensures
        lead_spaces(s) == a,
    decreases a,
{
    if a == 0 {
        if s.len() > 0 && is_space(s[0]) {
            assert(false);
        }
    } else {
        assert(is_space(s[0]));
        assert(forall|i: int| 0 <= i < a - 1 ==> is_space(#[trigger] s.drop_first()[i]));
        if a - 1 < s.drop_first().len() {
            assert(s.drop_first()[a - 1] == s[a]);
        }
        lemma_lead_eq(s.drop_first(), a - 1);
    }
}

/// A scan that stops at the last non-space finds the trail count of
/// the lead-trimmed remainder.
proof fn lemma_trail_eq(s: Seq<char>, a: int, b: int)
    requires
        0 <= a <= b <= s.len(),
        a == lead_spaces(s),
        forall|i: int| b <= i < s.len() ==> is_space(#[trigger] s[i]),
        b > a ==> !is_space(s[b - 1]),
    ensures
        trail_spaces(s.skip(a)) == s.len() - b,
        trim_spec(s) == s.subrange(a, b),
{
    let t = s.skip(a);
    lemma_trail_rec(t, b - a);
    assert(trim_spec(s) =~= s.subrange(a, b));
}

proof fn lemma_trail_rec(t: Seq<char>, k: int)
    requires
        0 <= k <= t.len(),
        forall|i: int| k <= i < t.len() ==> is_space(#[trigger] t[i]),
        k > 0 ==> !is_space(t[k - 1]),
    ensures
        trail_spaces(t) == t.len() - k,
    decreases t.len() - k,
{
    if k == t.len() {
        if t.len() > 0 && is_space(t.last()) {
            assert(!is_space(t[k - 1]));
            assert(false);
        }
    } else {
        assert(is_space(t.last()));
        assert(forall|i: int| k <= i < t.drop_last().len() ==>
            is_space(#[trigger] t.drop_last()[i]));
        if k > 0 {
            assert(t.drop_last()[k - 1] == t[k - 1]);
        }
        lemma_trail_rec(t.drop_last(), k);
    }
}

} // verus!
