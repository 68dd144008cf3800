//! Verified helpers on strings viewed as sequences of characters:
//! lexicographic order, separator splitting and joining, prefix and
//! suffix stripping. Identifier parsing and formatting are built on these.

use vstd::prelude::*;

verus! {

/// True when no character of `s` equals `c`.
pub open spec fn sep_free(s: Seq<char>, c: char) -> bool {
    forall|i: int| 0 <= i < s.len() ==> s[i] != c
}

/// Strict lexicographic order on character sequences, by code point.
pub open spec fn lex_lt(a: Seq<char>, b: Seq<char>) -> bool
    decreases a.len(),
{
    if b.len() == 0 {
        false
    } else if a.len() == 0 {
        true
    } else if (a[0] as u32) < (b[0] as u32) {
        true
    } else if a[0] == b[0] {
        lex_lt(a.skip(1), b.skip(1))
    } else {
        false
    }
}

/// Non-strict lexicographic order on character sequences.
pub open spec fn lex_le(a: Seq<char>, b: Seq<char>) -> bool {
    lex_lt(a, b) || a == b
}

/// The lexicographic order is total: two sequences are ordered or equal.
pub proof fn lemma_lex_total(a: Seq<char>, b: Seq<char>)
    ensures
        lex_lt(a, b) || lex_lt(b, a) || a == b,
    decreases a.len(),
{
    if a.len() == 0 && b.len() == 0 {
        assert(a =~= b);
    } else if a.len() == 0 || b.len() == 0 {
    } else if (a[0] as u32) < (b[0] as u32) || (b[0] as u32) < (a[0] as u32) {
    } else {
        assert(a[0] == b[0]) by {
            vstd::utf8::char_u32_cast(a[0], a[0] as u32);
            vstd::utf8::char_u32_cast(b[0], b[0] as u32);
        }
        lemma_lex_total(a.skip(1), b.skip(1));
        if a.skip(1) == b.skip(1) {
            assert(a.skip(1).len() == a.len() - 1);
            assert(b.skip(1).len() == b.len() - 1);
            assert(a.len() == b.len());
            assert(a =~= b) by {
                assert forall|i: int| 0 <= i < a.len() implies a[i] == b[i] by {
                    if i > 0 {
                        assert(a.skip(1)[i - 1] == a[i]);
                        assert(b.skip(1)[i - 1] == b[i]);
                    }
                }
            }
        }
    }
}

/// Nothing is lexicographically below itself.
pub proof fn lemma_lex_lt_irrefl(a: Seq<char>)
    ensures
        !lex_lt(a, a),
    decreases a.len(),
{
    if a.len() > 0 {
        lemma_lex_lt_irrefl(a.skip(1));
    }
}

/// The strict lexicographic order is transitive.
pub proof fn lemma_lex_lt_trans(a: Seq<char>, b: Seq<char>, c: Seq<char>)
    requires
        lex_lt(a, b),
        lex_lt(b, c),
    ensures
        lex_lt(a, c),
    decreases a.len(),
{
    if a.len() == 0 {
    } else {
        assert(b.len() > 0 && c.len() > 0);
        if (a[0] as u32) < (b[0] as u32) || (b[0] as u32) < (c[0] as u32) {
            assert((a[0] as u32) < (c[0] as u32) || a[0] == b[0] || b[0] == c[0]);
            if a[0] == b[0] && !((b[0] as u32) < (c[0] as u32)) {
                assert((a[0] as u32) < (c[0] as u32) || b[0] == c[0]);
            }
            if !((a[0] as u32) < (c[0] as u32)) {
                assert(a[0] == b[0] || b[0] == c[0]);
                if a[0] == b[0] {
                    assert((b[0] as u32) < (c[0] as u32));
                    assert((a[0] as u32) < (c[0] as u32));
                } else {
                    assert((a[0] as u32) < (b[0] as u32) && b[0] == c[0]);
                    assert((a[0] as u32) < (c[0] as u32));
                }
            }
        } else {
            assert(a[0] == b[0] && b[0] == c[0]);
            lemma_lex_lt_trans(a.skip(1), b.skip(1), c.skip(1));
        }
    }
}

/// The non-strict lexicographic order is transitive.
pub proof fn lemma_lex_trans(a: Seq<char>, b: Seq<char>, c: Seq<char>)
    requires
        lex_le(a, b),
        lex_le(b, c),
    ensures
        lex_le(a, c),
{
    if lex_lt(a, b) && lex_lt(b, c) {
        lemma_lex_lt_trans(a, b, c);
    }
}

/// Split `s` at every occurrence of `c`; the result always has one part
/// more than `s` has separators.
pub open spec fn split_on(s: Seq<char>, c: char) -> Seq<Seq<char>>
    decreases s.len(),
{
    if s.len() == 0 {
        seq![Seq::<char>::empty()]
    } else if s[0] == c {
        seq![Seq::<char>::empty()] + split_on(s.skip(1), c)
    } else {
        let rest = split_on(s.skip(1), c);
        seq![seq![s[0]] + rest[0]] + rest.skip(1)
    }
}

pub proof fn lemma_split_on_len(s: Seq<char>, c: char)
    ensures
        split_on(s, c).len() >= 1,
    decreases s.len(),
{
    if s.len() != 0 {
        lemma_split_on_len(s.skip(1), c);
    }
}

/// A separator-free string splits into just itself.
pub proof fn lemma_split_on_sep_free(s: Seq<char>, c: char)
    requires
        sep_free(s, c),
    ensures
        split_on(s, c) == seq![s],
    decreases s.len(),
{
    if s.len() == 0 {
        assert(s =~= Seq::<char>::empty());
        assert(split_on(s, c) =~= seq![s]);
    } else {
        assert(s[0] != c);
        assert(sep_free(s.skip(1), c)) by {
            assert forall|i: int| 0 <= i < s.skip(1).len() implies s.skip(1)[i] != c by {
                assert(s.skip(1)[i] == s[i + 1]);
            }
        }
        lemma_split_on_sep_free(s.skip(1), c);
        assert(seq![s[0]] + s.skip(1) =~= s);
        assert(split_on(s, c) =~= seq![s]);
    }
}

/// Splitting `x + [c] + y` with `x` separator-free peels off `x`.
pub proof fn lemma_split_on_prepend(x: Seq<char>, y: Seq<char>, c: char)
    requires
        sep_free(x, c),
    ensures
        split_on(x + seq![c] + y, c) == seq![x] + split_on(y, c),
    decreases x.len(),
{
    let s = x + seq![c] + y;
    if x.len() == 0 {
        assert(s[0] == c);
        assert(s.skip(1) =~= y);
        assert(x =~= Seq::<char>::empty());
        assert(split_on(s, c) =~= seq![x] + split_on(y, c));
    } else {
        assert(s[0] == x[0]);
        assert(s[0] != c);
        assert(sep_free(x.skip(1), c)) by {
            assert forall|i: int| 0 <= i < x.skip(1).len() implies x.skip(1)[i] != c by {
                assert(x.skip(1)[i] == x[i + 1]);
            }
        }
        lemma_split_on_prepend(x.skip(1), y, c);
        assert(s.skip(1) =~= x.skip(1) + seq![c] + y);
        let rest = split_on(s.skip(1), c);
        assert(rest == seq![x.skip(1)] + split_on(y, c));
        assert(rest[0] == x.skip(1));
        assert(seq![s[0]] + rest[0] =~= x);
        assert(rest.skip(1) =~= split_on(y, c));
        assert(split_on(s, c) =~= seq![x] + split_on(y, c));
    }
}

/// In `x + [c] + y` with `y` separator-free, the last `c` sits at `x.len()`.
pub proof fn lemma_last_sep(x: Seq<char>, y: Seq<char>, c: char)
    requires
        sep_free(y, c),
    ensures
        (x + seq![c] + y)[x.len() as int] == c,
        forall|j: int| x.len() < j < (x + seq![c] + y).len() ==> (x + seq![c] + y)[j] != c,
{
    let s = x + seq![c] + y;
    assert forall|j: int| x.len() < j < s.len() implies s[j] != c by {
        assert(s[j] == y[j - x.len() - 1]);
    }
}

/// Concatenation cancels on the left.
pub proof fn lemma_concat_left_cancel(p: Seq<char>, a: Seq<char>, b: Seq<char>)
    requires
        p + a == p + b,
    ensures
        a == b,
{
    assert((p + a).len() == p.len() + a.len());
    assert((p + b).len() == p.len() + b.len());
    assert(a.len() == b.len());
    assert forall|i: int| 0 <= i < a.len() implies a[i] == b[i] by {
        assert(0 <= p.len() + i < (p + a).len());
        assert((p + a)[p.len() + i] == a[i]);
        assert((p + b)[p.len() + i] == b[i]);
    }
    assert(a =~= b);
}

/// Concatenation cancels on the right.
pub proof fn lemma_concat_right_cancel(p: Seq<char>, a: Seq<char>, b: Seq<char>)
    requires
        a + p == b + p,
    ensures
        a == b,
{
    assert((a + p).len() == a.len() + p.len());
    assert((b + p).len() == b.len() + p.len());
    assert(a.len() == b.len());
    assert forall|i: int| 0 <= i < a.len() implies a[i] == b[i] by {
        assert(0 <= i < (a + p).len());
        assert((a + p)[i] == a[i]);
        assert((b + p)[i] == b[i]);
    }
    assert(a =~= b);
}

/// A split at the last separator is unique: two such decompositions of one
/// string agree.
pub proof fn lemma_last_sep_split_unique(
    x1: Seq<char>,
    y1: Seq<char>,
    x2: Seq<char>,
    y2: Seq<char>,
    c: char,
)
    requires
        x1 + seq![c] + y1 == x2 + seq![c] + y2,
        sep_free(y1, c),
        sep_free(y2, c),
    ensures
        x1 == x2,
        y1 == y2,
{
    let s = x1 + seq![c] + y1;
    lemma_last_sep(x1, y1, c);
    lemma_last_sep(x2, y2, c);
    assert(s.len() == x1.len() + 1 + y1.len());
    assert(s.len() == x2.len() + 1 + y2.len());
    if x1.len() < x2.len() {
        assert(s[x2.len() as int] == c);
        assert(s[x2.len() as int] != c);
    }
    if x2.len() < x1.len() {
        assert(s[x1.len() as int] == c);
        assert(s[x1.len() as int] != c);
    }
    assert(x1.len() == x2.len());
    assert(x1 =~= x2) by {
        assert forall|i: int| 0 <= i < x1.len() implies x1[i] == x2[i] by {
            assert(s[i] == x1[i]);
            assert(s[i] == x2[i]);
        }
    }
    assert(y1 =~= y2) by {
        assert forall|i: int| 0 <= i < y1.len() implies y1[i] == y2[i] by {
            assert(s[x1.len() + 1 + i] == y1[i]);
            assert(s[x2.len() + 1 + i] == y2[i]);
        }
    }
}

/// Equality test on string slices.
pub fn str_eq(a: &str, b: &str) -> (r: bool)
    ensures
        r == (a@ == b@),
{
    let alen: usize = a.unicode_len();
    let blen: usize = b.unicode_len();
    if alen != blen {
        return false;
    }
    let mut i: usize = 0;
    while i < alen
        invariant
            alen == a@.len(),
            blen == b@.len(),
            alen == blen,
            i <= alen,
            forall|j: int| 0 <= j < i ==> a@[j] == b@[j],
        decreases alen - i,
    {
        if a.get_char(i) != b.get_char(i) {
            assert(a@ != b@) by {
                assert(a@[i as int] != b@[i as int]);
            }
            return false;
        }
        i = i + 1;
    }
    proof {
        assert(a@ =~= b@);
    }
    true
}

/// Strict lexicographic comparison of string slices.
pub fn str_lt(a: &str, b: &str) -> (r: bool)
    ensures
        r == lex_lt(a@, b@),
{
    let alen: usize = a.unicode_len();
    let blen: usize = b.unicode_len();
    let mut i: usize = 0;
    proof {
        assert(a@.skip(0) =~= a@);
        assert(b@.skip(0) =~= b@);
    }
    loop
        invariant
            alen == a@.len(),
            blen == b@.len(),
            i <= alen,
            i <= blen,
            lex_lt(a@, b@) == lex_lt(a@.skip(i as int), b@.skip(i as int)),
        decreases alen - i,
    {
        if i >= blen {
            assert(b@.skip(i as int).len() == 0);
            return false;
        }
        if i >= alen {
            assert(a@.skip(i as int).len() == 0);
            assert(b@.skip(i as int).len() > 0);
            return true;
        }
        let ca = a.get_char(i);
        let cb = b.get_char(i);
        let ghost sa = a@.skip(i as int);
        let ghost sb = b@.skip(i as int);
        proof {
            assert(sa.len() > 0 && sb.len() > 0);
            assert(sa[0] == a@[i as int] && sb[0] == b@[i as int]);
        }
        if (ca as u32) < (cb as u32) {
            return true;
        }
        if ca != cb {
            assert(!lex_lt(sa, sb));
            return false;
        }
        proof {
            assert(sa.skip(1) =~= a@.skip(i + 1));
            assert(sb.skip(1) =~= b@.skip(i + 1));
            assert(lex_lt(sa, sb) == lex_lt(sa.skip(1), sb.skip(1)));
        }
        i = i + 1;
    }
}

/// Remove the prefix `p` from `s`, when present.
pub fn strip_prefix_str<'a>(s: &'a str, p: &str) -> (r: Option<&'a str>)
    ensures
        match r {
            Some(rest) => s@ == p@ + rest@,
            None => !p@.is_prefix_of(s@),
        },
{
    let slen: usize = s.unicode_len();
    let plen: usize = p.unicode_len();
    if plen > slen {
        return None;
    }
    let mut i: usize = 0;
    while i < plen
        invariant
            slen == s@.len(),
            plen == p@.len(),
            plen <= slen,
            i <= plen,
            forall|j: int| 0 <= j < i ==> s@[j] == p@[j],
        decreases plen - i,
    {
        if s.get_char(i) != p.get_char(i) {
            assert(!p@.is_prefix_of(s@)) by {
                assert(s@[i as int] != p@[i as int]);
                assert(s@.subrange(0, plen as int)[i as int] == s@[i as int]);
            }
            return None;
        }
        i = i + 1;
    }
    let rest = s.substring_char(plen, slen);
    proof {
        assert(s@ =~= p@ + rest@);
    }
    Some(rest)
}

/// Remove the suffix `p` from `s`, when present.
pub fn strip_suffix_str<'a>(s: &'a str, p: &str) -> (r: Option<&'a str>)
    ensures
        match r {
            Some(rest) => s@ == rest@ + p@,
            None => !p@.is_suffix_of(s@),
        },
{
    let slen: usize = s.unicode_len();
    let plen: usize = p.unicode_len();
    if plen > slen {
        return None;
    }
    let start: usize = slen - plen;
    let mut i: usize = 0;
    while i < plen
        invariant
            slen == s@.len(),
            plen == p@.len(),
            start == slen - plen,
            i <= plen,
            forall|j: int| 0 <= j < i ==> s@[start + j] == p@[j],
        decreases plen - i,
    {
        if s.get_char(start + i) != p.get_char(i) {
            assert(!p@.is_suffix_of(s@)) by {
                assert(s@[start + i] != p@[i as int]);
                assert(s@.subrange(start as int, slen as int)[i as int] == s@[start + i]);
            }
            return None;
        }
        i = i + 1;
    }
    let rest = s.substring_char(0, start);
    proof {
        assert(s@ =~= rest@ + p@);
    }
    Some(rest)
}

/// The position of the last occurrence of `c` in `s`.
pub fn last_index_of(s: &str, c: char) -> (r: Option<usize>)
    ensures
        match r {
            Some(i) => i < s@.len() && s@[i as int] == c && forall|j: int|
                i < j < s@.len() ==> s@[j] != c,
            None => sep_free(s@, c),
        },
{
    let len: usize = s.unicode_len();
    let mut i: usize = len;
    while i > 0
        invariant
            len == s@.len(),
            i <= len,
            forall|j: int| i <= j < len ==> s@[j] != c,
        decreases i,
    {
        i = i - 1;
        if s.get_char(i) == c {
            return Some(i);
        }
    }
    None
}

/// Split `s` at every occurrence of `c`.
pub fn split_char(s: &str, c: char) -> (parts: Vec<String>)
    ensures
        parts@.map_values(|p: String| p@) == split_on(s@, c),
{
    let len: usize = s.unicode_len();
    let mut parts: Vec<String> = Vec::new();
    let mut start: usize = 0;
    let mut i: usize = 0;
    proof {
        assert(s@.skip(0) =~= s@);
        assert(parts@.map_values(|p: String| p@) =~= Seq::<Seq<char>>::empty());
    }
    while i < len
        invariant
            len == s@.len(),
            start <= i <= len,
            forall|j: int| start <= j < i ==> s@[j] != c,
            split_on(s@, c) == parts@.map_values(|p: String| p@) + split_on(
                s@.skip(start as int),
                c,
            ),
        decreases len - i,
    {
        if s.get_char(i) == c {
            let part = s.substring_char(start, i);
            proof {
                assert(sep_free(part@, c)) by {
                    assert forall|j: int| 0 <= j < part@.len() implies part@[j] != c by {
                        assert(part@[j] == s@[start + j]);
                    }
                }
                assert(s@.skip(start as int) =~= part@ + seq![c] + s@.skip(i + 1));
                lemma_split_on_prepend(part@, s@.skip(i + 1), c);
            }
            let ghost old_parts = parts@;
            parts.push(part.to_owned());
            proof {
                assert(parts@.map_values(|p: String| p@) =~= old_parts.map_values(
                    |p: String| p@,
                ) + seq![part@]);
                assert(split_on(s@, c) =~= parts@.map_values(|p: String| p@) + split_on(
                    s@.skip(i + 1),
                    c,
                ));
            }
            start = i + 1;
        }
        i = i + 1;
    }
    let last = s.substring_char(start, len);
    proof {
        assert(last@ =~= s@.skip(start as int));
        assert(sep_free(last@, c)) by {
            assert forall|j: int| 0 <= j < last@.len() implies last@[j] != c by {
                assert(last@[j] == s@[start + j]);
            }
        }
        lemma_split_on_sep_free(last@, c);
    }
    let ghost old_parts = parts@;
    parts.push(last.to_owned());
    proof {
        assert(parts@.map_values(|p: String| p@) =~= old_parts.map_values(|p: String| p@)
            + seq![last@]);
        assert(split_on(s@, c) =~= parts@.map_values(|p: String| p@));
    }
    parts
}

/// Concatenation of `parts` with `sep` between consecutive parts.
pub open spec fn join_sep(parts: Seq<Seq<char>>, sep: Seq<char>) -> Seq<char>
    decreases parts.len(),
{
    if parts.len() == 0 {
        Seq::<char>::empty()
    } else if parts.len() == 1 {
        parts[0]
    } else {
        parts[0] + sep + join_sep(parts.skip(1), sep)
    }
}

pub proof fn lemma_join_sep_push(parts: Seq<Seq<char>>, sep: Seq<char>, last: Seq<char>)
    requires
        parts.len() >= 1,
    ensures
        join_sep(parts.push(last), sep) == join_sep(parts, sep) + sep + last,
    decreases parts.len(),
{
    if parts.len() == 1 {
        reveal_with_fuel(join_sep, 3);
        assert(parts.push(last).skip(1) =~= seq![last]);
        assert(join_sep(parts.push(last), sep) =~= parts[0] + sep + last);
    } else {
        lemma_join_sep_push(parts.skip(1), sep, last);
        assert(parts.push(last).skip(1) =~= parts.skip(1).push(last));
        assert(join_sep(parts, sep) + sep + last =~= parts[0] + sep + (join_sep(
            parts.skip(1),
            sep,
        ) + sep + last));
    }
}

/// Join the given strings with a separator between consecutive entries.
pub fn join_strings(parts: &Vec<String>, sep: &str) -> (r: String)
    ensures
        r@ == join_sep(parts@.map_values(|p: String| p@), sep@),
{
    let mut out = String::new();
    if parts.len() == 0 {
        return out;
    }
    out.append(parts[0].as_str());
    let mut i: usize = 1;
    proof {
        assert(parts@.map_values(|p: String| p@).subrange(0, 1) =~= seq![parts@[0]@]);
    }
    while i < parts.len()
        invariant
            1 <= i <= parts.len(),
            out@ == join_sep(parts@.map_values(|p: String| p@).subrange(0, i as int), sep@),
        decreases parts.len() - i,
    {
        out.append(sep);
        out.append(parts[i].as_str());
        proof {
            let all = parts@.map_values(|p: String| p@);
            assert(all.subrange(0, i + 1) =~= all.subrange(0, i as int).push(all[i as int]));
            lemma_join_sep_push(all.subrange(0, i as int), sep@, all[i as int]);
        }
        i = i + 1;
    }
    proof {
        let all = parts@.map_values(|p: String| p@);
        assert(all.subrange(0, parts@.len() as int) =~= all);
    }
    out
}

/// The whitespace characters stripped from the ends of identifier text.
pub open spec fn is_space_char(c: char) -> bool {
    c == ' ' || c == '\t' || c == '\n' || c == '\r'
}

/// The sequence with its leading whitespace removed.
pub open spec fn trim_start_chars(s: Seq<char>) -> Seq<char>
    decreases s.len(),
{
    if s.len() > 0 && is_space_char(s[0]) {
        trim_start_chars(s.skip(1))
    } else {
        s
    }
}

/// The sequence with its trailing whitespace removed.
pub open spec fn trim_end_chars(s: Seq<char>) -> Seq<char>
    decreases s.len(),
{
    if s.len() > 0 && is_space_char(s.last()) {
        trim_end_chars(s.drop_last())
    } else {
        s
    }
}

/// The sequence with whitespace removed from both ends.
pub open spec fn trim_chars(s: Seq<char>) -> Seq<char> {
    trim_end_chars(trim_start_chars(s))
}

/// Trimming skips exactly the leading whitespace.
pub proof fn lemma_trim_start_skip(s: Seq<char>, i: int)
    requires
        0 <= i <= s.len(),
        forall|j: int| 0 <= j < i ==> is_space_char(s[j]),
        i < s.len() ==> !is_space_char(s[i]),
    ensures
        trim_start_chars(s) == s.skip(i),
    decreases i,
{
    if i == 0 {
        assert(s.skip(0) =~= s);
    } else {
        assert(is_space_char(s[0]));
        let t = s.skip(1);
        assert(forall|j: int| 0 <= j < i - 1 ==> is_space_char(#[trigger] t[j]));
        assert(i - 1 < t.len() ==> !is_space_char(t[i - 1]));
        lemma_trim_start_skip(t, i - 1);
        assert(t.skip(i - 1) =~= s.skip(i));
    }
}

/// Trimming keeps exactly the prefix before the trailing whitespace.
pub proof fn lemma_trim_end_take(s: Seq<char>, j: int)
    requires
        0 <= j <= s.len(),
        forall|k: int| j <= k < s.len() ==> is_space_char(s[k]),
        j > 0 ==> !is_space_char(s[j - 1]),
    ensures
        trim_end_chars(s) == s.take(j),
    decreases s.len(),
{
    if j == s.len() {
        assert(s.take(j) =~= s);
    } else {
        assert(is_space_char(s.last()));
        let t = s.drop_last();
        assert(forall|k: int| j <= k < t.len() ==> is_space_char(#[trigger] t[k]));
        lemma_trim_end_take(t, j);
        assert(t.take(j) =~= s.take(j));
    }
}

/// A trimmed sequence is empty or starts and ends without whitespace.
pub proof fn lemma_trim_edges(s: Seq<char>)
    ensures
        trim_chars(s).len() == 0 || (!is_space_char(trim_chars(s)[0]) && !is_space_char(
            trim_chars(s).last(),
        )),
    decreases s.len(),
{
    lemma_trim_start_first(s);
    let t = trim_start_chars(s);
    lemma_trim_end_keeps_first(t);
}

/// Leading trimming leaves a first character that is no whitespace.
pub proof fn lemma_trim_start_first(s: Seq<char>)
    ensures
        trim_start_chars(s).len() == 0 || !is_space_char(trim_start_chars(s)[0]),
    decreases s.len(),
{
    if s.len() > 0 && is_space_char(s[0]) {
        lemma_trim_start_first(s.skip(1));
    }
}

/// Trailing trimming keeps the first character and leaves a last character
/// that is no whitespace.
pub proof fn lemma_trim_end_keeps_first(s: Seq<char>)
    ensures
        trim_end_chars(s).len() == 0 || (trim_end_chars(s)[0] == s[0] && !is_space_char(
            trim_end_chars(s).last(),
        )),
    decreases s.len(),
{
    if s.len() > 0 && is_space_char(s.last()) {
        lemma_trim_end_keeps_first(s.drop_last());
        if trim_end_chars(s).len() > 0 {
            assert(s.drop_last()[0] == s[0]);
        }
    }
}

/// A sequence without whitespace at either end trims to itself.
pub proof fn lemma_trim_id(s: Seq<char>)
    requires
        s.len() > 0 ==> !is_space_char(s[0]) && !is_space_char(s.last()),
    ensures
        trim_chars(s) == s,
{
}

/// Strip the whitespace from both ends of a string.
pub fn trim_str<'a>(s: &'a str) -> (r: &'a str)
    ensures
        r@ == trim_chars(s@),
{
    let len: usize = s.unicode_len();
    let mut i: usize = 0;
    while i < len
        invariant
            len == s@.len(),
            i <= len,
            forall|j: int| 0 <= j < i ==> is_space_char(s@[j]),
        ensures
            len == s@.len(),
            i <= len,
            forall|j: int| 0 <= j < i ==> is_space_char(s@[j]),
            i < len ==> !is_space_char(s@[i as int]),
        decreases len - i,
    {
        let c = s.get_char(i);
        if !(c == ' ' || c == '\t' || c == '\n' || c == '\r') {
            break;
        }
        i = i + 1;
    }
    let mut j: usize = len;
    while j > i
        invariant
            len == s@.len(),
            i <= j <= len,
            forall|k: int| j <= k < len ==> is_space_char(s@[k]),
        ensures
            len == s@.len(),
            i <= j <= len,
            forall|k: int| j <= k < len ==> is_space_char(s@[k]),
            j > i ==> !is_space_char(s@[j - 1]),
        decreases j,
    {
        let c = s.get_char(j - 1);
        if !(c == ' ' || c == '\t' || c == '\n' || c == '\r') {
            break;
        }
        j = j - 1;
    }
    let r = s.substring_char(i, j);
    proof {
        lemma_trim_start_skip(s@, i as int);
        let t = s@.skip(i as int);
        assert(forall|k: int| j - i <= k < t.len() ==> is_space_char(#[trigger] t[k]));
        if j > i {
            assert(!is_space_char(t[j - i - 1]));
        }
        lemma_trim_end_take(t, j - i);
        assert(r@ =~= t.take(j - i));
    }
    r
}

/// Joining the parts of a split with the separator gives the string back.
pub proof fn lemma_split_concat(s: Seq<char>, c: char)
    ensures
        join_sep(split_on(s, c), seq![c]) == s,
    decreases s.len(),
{
    lemma_split_on_len(s, c);
    if s.len() == 0 {
        assert(join_sep(split_on(s, c), seq![c]) =~= s);
    } else if s[0] == c {
        lemma_split_concat(s.skip(1), c);
        let rest = split_on(s.skip(1), c);
        lemma_split_on_len(s.skip(1), c);
        let parts = seq![Seq::<char>::empty()] + rest;
        assert(split_on(s, c) == parts);
        assert(parts.len() >= 2);
        assert(parts.skip(1) =~= rest);
        assert(join_sep(parts, seq![c]) == parts[0] + seq![c] + join_sep(rest, seq![c]));
        assert(parts[0] + seq![c] + join_sep(rest, seq![c]) =~= s);
    } else {
        lemma_split_concat(s.skip(1), c);
        let rest = split_on(s.skip(1), c);
        lemma_split_on_len(s.skip(1), c);
        let head = seq![s[0]] + rest[0];
        let parts = seq![head] + rest.skip(1);
        assert(split_on(s, c) == parts);
        if rest.len() == 1 {
            assert(parts.len() == 1);
            assert(join_sep(parts, seq![c]) == head);
            assert(join_sep(rest, seq![c]) == rest[0]);
            assert(head =~= seq![s[0]] + s.skip(1));
            assert(head =~= s);
        } else {
            assert(parts.len() >= 2);
            assert(parts.skip(1) =~= rest.skip(1));
            assert(join_sep(parts, seq![c]) == head + seq![c] + join_sep(rest.skip(1), seq![c]));
            assert(join_sep(rest, seq![c]) == rest[0] + seq![c] + join_sep(rest.skip(1), seq![c]));
            assert(rest[0] + seq![c] + join_sep(rest.skip(1), seq![c]) == s.skip(1));
            assert(head + seq![c] + join_sep(rest.skip(1), seq![c]) =~= seq![s[0]] + (rest[0]
                + seq![c] + join_sep(rest.skip(1), seq![c])));
            assert(seq![s[0]] + s.skip(1) =~= s);
        }
    }
}

} // verus!

