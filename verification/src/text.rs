//! Character-level string utilities: splitting, trimming, case folding,
//! decimal / hexadecimal parsing and formatting.
//!
//! All executable functions are specified against spec functions over
//! `Seq<char>`, so that the protocol layers above can state their
//! contracts purely over character sequences.

use vstd::prelude::*;

verus! {

/// Relies on String::push: appends the one character to the string.
#[verifier::external_body]
pub fn push_char(s: &mut String, c: char)
    ensures
        final(s)@ == old(s)@.push(c),
{
    s.push(c)
}

// ---------------------------------------------------------------------------
// Splitting on a separator character
// ---------------------------------------------------------------------------

/// The pieces of `s` between occurrences of `sep`: always one more piece
/// than there are separators, so the result is never empty.
pub open spec fn spec_split_char(s: Seq<char>, sep: char) -> Seq<Seq<char>>
    decreases s.len(),
{
    if s.len() == 0 {
        seq![Seq::<char>::empty()]
    } else if s[0] == sep {
        seq![Seq::<char>::empty()] + spec_split_char(s.drop_first(), sep)
    } else {
        let rest = spec_split_char(s.drop_first(), sep);
        seq![seq![s[0]] + rest[0]] + rest.skip(1)
    }
}

pub proof fn lemma_split_char_len(s: Seq<char>, sep: char)
    ensures
        spec_split_char(s, sep).len() >= 1,
    decreases s.len(),
{
    if s.len() > 0 {
        lemma_split_char_len(s.drop_first(), sep);
    }
}

/// Splits `s` at every occurrence of `sep`, like `str::split` with a
/// `char` pattern: `n` separators give `n + 1` pieces.
pub fn split_char(s: &str, sep: char) -> (r: Vec<String>)
    ensures
        r.deep_view() == spec_split_char(s@, sep),
{
    let len = s.unicode_len();
    let mut out: Vec<String> = Vec::new();
    let mut cur = String::new();
    let mut i: usize = 0;
    proof {
        lemma_split_char_len(s@, sep);
        assert(s@.skip(0) =~= s@);
        assert(out.deep_view() =~= Seq::<Seq<char>>::empty());
        assert(cur@ + spec_split_char(s@, sep)[0] =~= spec_split_char(s@, sep)[0]);
        assert(out.deep_view() + seq![spec_split_char(s@, sep)[0]] + spec_split_char(
            s@,
            sep,
        ).skip(1) =~= spec_split_char(s@, sep));
    }
    while i < len
        invariant
            len == s@.len(),
            i <= len,
            forall|j: int| 0 <= j < cur@.len() ==> cur@[j] != sep,
            spec_split_char(s@, sep) == out.deep_view() + seq![cur@ + spec_split_char(
                s@.skip(i as int),
                sep,
            )[0]] + spec_split_char(s@.skip(i as int), sep).skip(1),
        decreases len - i,
    {
        let ghost rem = s@.skip(i as int);
        proof {
            assert(rem.len() > 0);
            assert(rem[0] == s@[i as int]);
            assert(rem.drop_first() =~= s@.skip(i + 1));
            lemma_split_char_len(s@.skip(i + 1), sep);
        }
        let c = s.get_char(i);
        if c == sep {
            proof {
                assert(spec_split_char(rem, sep) == seq![Seq::<char>::empty()] + spec_split_char(
                    s@.skip(i + 1),
                    sep,
                ));
                assert(cur@ + spec_split_char(rem, sep)[0] =~= cur@);
            }
            let ghost old_out = out.deep_view();
            out.push(cur);
            proof {
                assert(out.deep_view() =~= old_out + seq![cur@]);
                assert(out.deep_view() + seq![Seq::<char>::empty() + spec_split_char(
                    s@.skip(i + 1),
                    sep,
                )[0]] + spec_split_char(s@.skip(i + 1), sep).skip(1) =~= old_out + seq![cur@]
                    + seq![spec_split_char(s@.skip(i + 1), sep)[0]] + spec_split_char(
                    s@.skip(i + 1),
                    sep,
                ).skip(1));
                assert(seq![spec_split_char(s@.skip(i + 1), sep)[0]] + spec_split_char(
                    s@.skip(i + 1),
                    sep,
                ).skip(1) =~= spec_split_char(s@.skip(i + 1), sep));
                assert(Seq::<char>::empty() + spec_split_char(s@.skip(i + 1), sep)[0]
                    =~= spec_split_char(s@.skip(i + 1), sep)[0]);
            }
            cur = String::new();
        } else {
            proof {
                let inner = spec_split_char(s@.skip(i + 1), sep);
                assert(spec_split_char(rem, sep) == seq![seq![rem[0]] + inner[0]] + inner.skip(1));
                assert(cur@ + spec_split_char(rem, sep)[0] =~= cur@.push(c) + inner[0]);
                assert(spec_split_char(rem, sep).skip(1) =~= inner.skip(1));
            }
            push_char(&mut cur, c);
        }
        i = i + 1;
    }
    proof {
        assert(s@.skip(len as int).len() == 0);
        assert(cur@ + spec_split_char(s@.skip(len as int), sep)[0] =~= cur@);
        assert(spec_split_char(s@.skip(len as int), sep).skip(1) =~= Seq::<Seq<char>>::empty());
    }
    let ghost old_out = out.deep_view();
    out.push(cur);
    proof {
        assert(out.deep_view() =~= old_out + seq![cur@]);
        assert(spec_split_char(s@, sep) =~= out.deep_view());
    }
    out
}

// ---------------------------------------------------------------------------
// Splitting into lines
// ---------------------------------------------------------------------------

/// A line as `str::lines` yields it: a trailing carriage return that stood
/// before the line feed is dropped.
pub open spec fn spec_strip_cr(l: Seq<char>) -> Seq<char> {
    if l.len() > 0 && l.last() == '\r' {
        l.drop_last()
    } else {
        l
    }
}

/// The lines of `s` as `str::lines` yields them: terminators are `\n` or
/// `\r\n`, and a final terminator is optional.
pub open spec fn spec_lines(s: Seq<char>) -> Seq<Seq<char>> {
    let parts = spec_split_char(s, '\n');
    if parts.last().len() == 0 {
        parts.drop_last().map_values(|l: Seq<char>| spec_strip_cr(l))
    } else {
        parts.drop_last().map_values(|l: Seq<char>| spec_strip_cr(l)) + seq![parts.last()]
    }
}

fn strip_cr_string(line: &String) -> (r: String)
    ensures
        r@ == spec_strip_cr(line@),
{
    let n = line.as_str().unicode_len();
    if n > 0 && line.as_str().get_char(n - 1) == '\r' {
        proof {
            assert(line@.subrange(0, n - 1) =~= line@.drop_last());
        }
        String::from_str(line.as_str().substring_char(0, n - 1))
    } else {
        line.clone()
    }
}

/// Splits `s` into lines, like `str::lines`.
pub fn split_lines(s: &str) -> (r: Vec<String>)
    ensures
        r.deep_view() == spec_lines(s@),
{
    let mut parts = split_char(s, '\n');
    proof {
        lemma_split_char_len(s@, '\n');
    }
    let last = match parts.pop() {
        Some(l) => l,
        None => {
            // split_char always returns at least one piece
            return Vec::new();
        },
    };
    let ghost ps = spec_split_char(s@, '\n');
    proof {
        assert(parts.deep_view() =~= ps.drop_last());
        assert(last@ == ps.last());
    }
    let keep_last = !last.as_str().is_empty();
    let mut out: Vec<String> = Vec::new();
    let mut i: usize = 0;
    let n = parts.len();
    proof {
        assert(out.deep_view() =~= ps.drop_last().map_values(
            |l: Seq<char>| spec_strip_cr(l),
        ).take(0));
    }
    while i < n
        invariant
            n == parts.len(),
            i <= n,
            parts.deep_view() == ps.drop_last(),
            out.deep_view() == ps.drop_last().map_values(|l: Seq<char>| spec_strip_cr(l)).take(
                i as int,
            ),
        decreases n - i,
    {
        let stripped = strip_cr_string(&parts[i]);
        let ghost old_out = out.deep_view();
        out.push(stripped);
        proof {
            let m = ps.drop_last().map_values(|l: Seq<char>| spec_strip_cr(l));
            assert(out.deep_view() =~= old_out + seq![stripped@]);
            assert(stripped@ == m[i as int]);
            assert(m.take(i + 1) =~= m.take(i as int) + seq![m[i as int]]);
        }
        i = i + 1;
    }
    proof {
        let m = ps.drop_last().map_values(|l: Seq<char>| spec_strip_cr(l));
        assert(m.take(n as int) =~= m);
    }
    if keep_last {
        let ghost old_out = out.deep_view();
        out.push(last);
        proof {
            assert(out.deep_view() =~= old_out + seq![last@]);
        }
    }
    out
}

// ---------------------------------------------------------------------------
// Trimming
// ---------------------------------------------------------------------------

/// The whitespace characters that header parsing trims.
pub open spec fn spec_is_ws(c: char) -> bool {
    c == ' ' || c == '\t' || c == '\r' || c == '\n' || c == '\u{b}' || c == '\u{c}'
}

pub open spec fn spec_trim_front(s: Seq<char>) -> Seq<char>
    decreases s.len(),
{
    if s.len() > 0 && spec_is_ws(s[0]) {
        spec_trim_front(s.drop_first())
    } else {
        s
    }
}

pub open spec fn spec_trim_back(s: Seq<char>) -> Seq<char>
    decreases s.len(),
{
    if s.len() > 0 && spec_is_ws(s.last()) {
        spec_trim_back(s.drop_last())
    } else {
        s
    }
}

/// `s` with leading and trailing whitespace removed.
pub open spec fn spec_trim(s: Seq<char>) -> Seq<char> {
    spec_trim_back(spec_trim_front(s))
}

fn is_ws_char(c: char) -> (r: bool)
    ensures
        r == spec_is_ws(c),
{
    c == ' ' || c == '\t' || c == '\r' || c == '\n' || c == '\u{b}' || c == '\u{c}'
}

/// Trims surrounding whitespace, like `str::trim` on ASCII text.
pub fn trim(s: &str) -> (r: String)
    ensures
        r@ == spec_trim(s@),
{
    let len = s.unicode_len();
    let mut a: usize = 0;
    proof {
        assert(s@.skip(0) =~= s@);
    }
    while a < len && is_ws_char(s.get_char(a))
        invariant
            len == s@.len(),
            a <= len,
            spec_trim_front(s@) == spec_trim_front(s@.skip(a as int)),
        decreases len - a,
    {
        proof {
            assert(s@.skip(a as int).drop_first() =~= s@.skip(a + 1));
        }
        a = a + 1;
    }
    proof {
        assert(spec_trim_front(s@.skip(a as int)) == s@.skip(a as int));
    }
    let mut b: usize = len;
    while b > a && is_ws_char(s.get_char(b - 1))
        invariant
            len == s@.len(),
            a <= b <= len,
            spec_trim_front(s@) == s@.skip(a as int),
            spec_trim_back(s@.skip(a as int)) == spec_trim_back(s@.subrange(a as int, b as int)),
        decreases b,
    {
        proof {
            assert(s@.subrange(a as int, b as int).last() == s@[b - 1]);
            assert(s@.subrange(a as int, b as int).drop_last() =~= s@.subrange(a as int, b - 1));
        }
        b = b - 1;
    }
    proof {
        assert(s@.skip(a as int) =~= s@.subrange(a as int, len as int));
        assert(spec_trim_back(s@.subrange(a as int, b as int)) == s@.subrange(a as int, b as int));
    }
    String::from_str(s.substring_char(a, b))
}

// ---------------------------------------------------------------------------
// ASCII case folding
// ---------------------------------------------------------------------------

/// The code point of `c` with an ASCII capital folded to its small letter.
pub open spec fn spec_lower_code(c: char) -> int {
    if 'A' as u32 <= c as u32 && c as u32 <= 'Z' as u32 {
        c as u32 + 32
    } else {
        c as u32 as int
    }
}

/// Equality of two character sequences up to ASCII case.
pub open spec fn spec_lower_eq(a: Seq<char>, b: Seq<char>) -> bool {
    a.len() == b.len() && forall|i: int|
        0 <= i < a.len() ==> spec_lower_code(a[i]) == spec_lower_code(b[i])
}

fn lower_code(c: char) -> (r: u32)
    ensures
        r as int == spec_lower_code(c),
{
    let v = c as u32;
    if 'A' as u32 <= v && v <= 'Z' as u32 {
        v + 32
    } else {
        v
    }
}

/// Compares two strings ignoring ASCII case.
pub fn eq_ignore_case(a: &str, b: &str) -> (r: bool)
    ensures
        r == spec_lower_eq(a@, b@),
{
    let n = a.unicode_len();
    if n != b.unicode_len() {
        return false;
    }
    let mut i: usize = 0;
    while i < n
        invariant
            n == a@.len(),
            n == b@.len(),
            i <= n,
            forall|j: int| 0 <= j < i ==> spec_lower_code(a@[j]) == spec_lower_code(b@[j]),
        decreases n - i,
    {
        if lower_code(a.get_char(i)) != lower_code(b.get_char(i)) {
            return false;
        }
        i = i + 1;
    }
    true
}

// ---------------------------------------------------------------------------
// Searching
// ---------------------------------------------------------------------------

/// The index of the first occurrence of `c` in `s`, or `s.len()` if there
/// is none.
pub open spec fn first_index_of(s: Seq<char>, c: char) -> int
    decreases s.len(),
{
    if s.len() == 0 {
        0
    } else if s[0] == c {
        0
    } else {
        1 + first_index_of(s.drop_first(), c)
    }
}

pub proof fn lemma_first_index_of(s: Seq<char>, c: char)
    ensures
        0 <= first_index_of(s, c) <= s.len(),
        first_index_of(s, c) < s.len() ==> s[first_index_of(s, c)] == c,
        forall|j: int| 0 <= j < first_index_of(s, c) ==> s[j] != c,
    decreases s.len(),
{
    if s.len() > 0 && s[0] != c {
        lemma_first_index_of(s.drop_first(), c);
        assert forall|j: int| 0 <= j < first_index_of(s, c) implies s[j] != c by {
            if j > 0 {
                assert(s.drop_first()[j - 1] != c);
            }
        }
    }
}

/// Two characters with the same code point are the same character.
proof fn lemma_char_code_inj(c1: char, c2: char)
    requires
        c1 as u32 == c2 as u32,
    ensures
        c1 == c2,
{
    vstd::utf8::char_u32_cast(c1, c1 as u32);
    vstd::utf8::char_u32_cast(c2, c2 as u32);
}

/// Whether `c` occurs in `s`.
pub open spec fn spec_contains_char(s: Seq<char>, c: char) -> bool {
    first_index_of(s, c) < s.len()
}

/// The index of the first occurrence of `c`, or `None` if `c` does not occur.
pub fn find_char(s: &str, c: char) -> (r: Option<usize>)
    ensures
        spec_contains_char(s@, c) ==> r == Some(first_index_of(s@, c) as usize),
        !spec_contains_char(s@, c) ==> r is None,
{
    let len = s.unicode_len();
    let mut i: usize = 0;
    proof {
        lemma_first_index_of(s@, c);
    }
    while i < len
        invariant
            len == s@.len(),
            i <= len,
            0 <= first_index_of(s@, c) <= len,
            first_index_of(s@, c) < len ==> s@[first_index_of(s@, c)] == c,
            forall|j: int| 0 <= j < first_index_of(s@, c) ==> s@[j] != c,
            forall|j: int| 0 <= j < i ==> s@[j] != c,
        decreases len - i,
    {
        if s.get_char(i) == c {
            proof {
                let fi = first_index_of(s@, c);
                if fi < i {
                    assert(s@[fi] != c);
                    assert(false);
                }
                if fi > i {
                    assert(s@[i as int] != c);
                    assert(false);
                }
            }
            return Some(i);
        }
        i = i + 1;
    }
    proof {
        let fi = first_index_of(s@, c);
        if fi < len {
            assert(s@[fi] != c);
            assert(false);
        }
    }
    None
}

/// Whether `p` is a prefix of `s`.
pub open spec fn spec_starts_with(s: Seq<char>, p: Seq<char>) -> bool {
    p.len() <= s.len() && s.take(p.len() as int) == p
}

pub fn starts_with(s: &str, p: &str) -> (r: bool)
    ensures
        r == spec_starts_with(s@, p@),
{
    let plen = p.unicode_len();
    if plen > s.unicode_len() {
        return false;
    }
    let mut i: usize = 0;
    while i < plen
        invariant
            plen == p@.len(),
            plen <= s@.len(),
            i <= plen,
            forall|j: int| 0 <= j < i ==> s@[j] == p@[j],
        decreases plen - i,
    {
        if s.get_char(i) != p.get_char(i) {
            proof {
                assert(s@.take(plen as int)[i as int] != p@[i as int]);
            }
            return false;
        }
        i = i + 1;
    }
    proof {
        assert(s@.take(plen as int) =~= p@);
    }
    true
}

/// The first position of `s` where `pat` matches, or `s.len()` as the
/// sentinel when it matches nowhere.
pub open spec fn first_sub_index(s: Seq<char>, pat: Seq<char>) -> int
    decreases s.len(),
{
    if s.len() == 0 || s.len() < pat.len() {
        s.len() as int
    } else if spec_starts_with(s, pat) {
        0
    } else {
        1 + first_sub_index(s.drop_first(), pat)
    }
}

pub proof fn lemma_first_sub_index(s: Seq<char>, pat: Seq<char>)
    ensures
        0 <= first_sub_index(s, pat) <= s.len(),
        first_sub_index(s, pat) + pat.len() <= s.len() ==> spec_starts_with(
            s.skip(first_sub_index(s, pat)),
            pat,
        ),
        forall|j: int| 0 <= j < first_sub_index(s, pat) ==> !spec_starts_with(s.skip(j), pat),
    decreases s.len(),
{
    if s.len() == 0 || s.len() < pat.len() {
        assert forall|j: int| 0 <= j < first_sub_index(s, pat) implies !spec_starts_with(
            s.skip(j),
            pat,
        ) by {
            assert(s.skip(j).len() < pat.len());
        }
        if s.len() == 0 && pat.len() == 0 {
            assert(s.skip(0) =~= s);
            assert(s.take(0) =~= pat);
        }
    } else if spec_starts_with(s, pat) {
        assert(s.skip(0) =~= s);
    } else {
        lemma_first_sub_index(s.drop_first(), pat);
        let fi = first_sub_index(s, pat);
        if fi + pat.len() <= s.len() {
            assert(s.drop_first().skip(fi - 1) =~= s.skip(fi));
        }
        assert forall|j: int| 0 <= j < fi implies !spec_starts_with(s.skip(j), pat) by {
            if j == 0 {
                assert(s.skip(0) =~= s);
            } else {
                assert(s.drop_first().skip(j - 1) =~= s.skip(j));
            }
        }
    }
}

/// The position of the first match of `pat` in `s`, or `None`.
pub fn find_sub(s: &str, pat: &str) -> (r: Option<usize>)
    ensures
        first_sub_index(s@, pat@) + pat@.len() <= s@.len() ==> r == Some(
            first_sub_index(s@, pat@) as usize,
        ),
        first_sub_index(s@, pat@) + pat@.len() > s@.len() ==> r is None,
{
    let slen = s.unicode_len();
    let plen = pat.unicode_len();
    proof {
        lemma_first_sub_index(s@, pat@);
    }
    if plen > slen {
        return None;
    }
    let mut i: usize = 0;
    while i <= slen - plen
        invariant
            slen == s@.len(),
            plen == pat@.len(),
            plen <= slen,
            i <= slen,
            0 <= first_sub_index(s@, pat@) <= slen,
            first_sub_index(s@, pat@) + plen <= slen ==> spec_starts_with(
                s@.skip(first_sub_index(s@, pat@)),
                pat@,
            ),
            forall|j: int| 0 <= j < first_sub_index(s@, pat@) ==> !spec_starts_with(
                s@.skip(j),
                pat@,
            ),
            forall|j: int| 0 <= j < i ==> !spec_starts_with(s@.skip(j), pat@),
        decreases slen - i,
    {
        let tail = s.substring_char(i, slen);
        proof {
            assert(tail@ =~= s@.skip(i as int));
        }
        if starts_with(tail, pat) {
            proof {
                let fi = first_sub_index(s@, pat@);
                if fi < i {
                    assert(!spec_starts_with(s@.skip(fi), pat@));
                    assert(fi + plen <= slen);
                    assert(false);
                }
                if fi > i {
                    assert(!spec_starts_with(s@.skip(i as int), pat@));
                    assert(false);
                }
            }
            return Some(i);
        }
        i = i + 1;
    }
    proof {
        let fi = first_sub_index(s@, pat@);
        if fi + plen <= slen {
            assert(fi < i);
            assert(!spec_starts_with(s@.skip(fi), pat@));
            assert(false);
        }
    }
    None
}

/// Equality of two string slices.
pub fn str_eq(a: &str, b: &str) -> (r: bool)
    ensures
        r == (a@ == b@),
{
    let x = a.to_owned();
    let y = b.to_owned();
    x == y
}

// ---------------------------------------------------------------------------
// Lexicographic order on character sequences
// ---------------------------------------------------------------------------

/// Strict lexicographic order by code point, as `str`'s `Ord` orders strings.
pub open spec fn lex_lt(a: Seq<char>, b: Seq<char>) -> bool
    decreases a.len(),
{
    if b.len() == 0 {
        false
    } else if a.len() == 0 {
        true
    } else if (a[0] as u32) < (b[0] as u32) {
        true
    } else if (b[0] as u32) < (a[0] as u32) {
        false
    } else {
        lex_lt(a.drop_first(), b.drop_first())
    }
}

pub proof fn lemma_lex_lt_connected(a: Seq<char>, b: Seq<char>)
    ensures
        !(lex_lt(a, b) && lex_lt(b, a)),
        !lex_lt(a, b) && !lex_lt(b, a) ==> a == b,
    decreases a.len(),
{
    if a.len() > 0 && b.len() > 0 && a[0] as u32 == b[0] as u32 {
        lemma_lex_lt_connected(a.drop_first(), b.drop_first());
        if !lex_lt(a, b) && !lex_lt(b, a) {
            lemma_char_code_inj(a[0], b[0]);
            assert(a[0] == b[0]);
            assert(a =~= seq![a[0]] + a.drop_first());
            assert(b =~= seq![b[0]] + b.drop_first());
        }
    } else {
        if !lex_lt(a, b) && !lex_lt(b, a) {
            assert(a.len() == 0 && b.len() == 0);
            assert(a =~= b);
        }
    }
}

/// Compares two strings in lexicographic order by code point.
pub fn str_lt(a: &str, b: &str) -> (r: bool)
    ensures
        r == lex_lt(a@, b@),
{
    let alen = a.unicode_len();
    let blen = b.unicode_len();
    let mut i: usize = 0;
    proof {
        assert(a@.skip(0) =~= a@);
        assert(b@.skip(0) =~= b@);
    }
    while i < alen || i < blen
        invariant
            alen == a@.len(),
            blen == b@.len(),
            i <= alen,
            i <= blen,
            lex_lt(a@, b@) == lex_lt(a@.skip(i as int), b@.skip(i as int)),
        decreases alen + blen - i - i,
    {
        if i >= blen {
            return false;
        }
        if i >= alen {
            return true;
        }
        let ca = a.get_char(i);
        let cb = b.get_char(i);
        proof {
            assert(a@.skip(i as int)[0] == a@[i as int]);
            assert(b@.skip(i as int)[0] == b@[i as int]);
        }
        if (ca as u32) < (cb as u32) {
            return true;
        }
        if (cb as u32) < (ca as u32) {
            return false;
        }
        proof {
            assert(a@.skip(i as int).drop_first() =~= a@.skip(i + 1));
            assert(b@.skip(i as int).drop_first() =~= b@.skip(i + 1));
        }
        i = i + 1;
    }
    false
}

pub proof fn lemma_lex_lt_trans(a: Seq<char>, b: Seq<char>, c: Seq<char>)
    requires
        lex_lt(a, b),
        lex_lt(b, c),
    ensures
        lex_lt(a, c),
    decreases a.len() + b.len() + c.len(),
{
    if a.len() > 0 && b.len() > 0 && c.len() > 0 {
        if a[0] as u32 == b[0] as u32 && b[0] as u32 == c[0] as u32 {
            lemma_lex_lt_trans(a.drop_first(), b.drop_first(), c.drop_first());
        }
    }
}

// ---------------------------------------------------------------------------
// Decimal and hexadecimal numbers
// ---------------------------------------------------------------------------

pub open spec fn spec_is_digit(c: char) -> bool {
    '0' as u32 <= c as u32 && c as u32 <= '9' as u32
}

pub open spec fn spec_digit_val(c: char) -> int {
    c as u32 - '0' as u32
}

/// The value of a string of decimal digits.
pub open spec fn spec_dec_value(s: Seq<char>) -> int
    decreases s.len(),
{
    if s.len() == 0 {
        0
    } else {
        spec_dec_value(s.drop_last()) * 10 + spec_digit_val(s.last())
    }
}

pub open spec fn spec_all_digits(s: Seq<char>) -> bool {
    s.len() > 0 && forall|i: int| 0 <= i < s.len() ==> spec_is_digit(s[i])
}

proof fn lemma_dec_value_nonneg(s: Seq<char>)
    requires
        forall|i: int| 0 <= i < s.len() ==> spec_is_digit(s[i]),
    ensures
        spec_dec_value(s) >= 0,
    decreases s.len(),
{
    if s.len() > 0 {
        lemma_dec_value_nonneg(s.drop_last());
    }
}

proof fn lemma_dec_prefix_le(s: Seq<char>, j: int)
    requires
        forall|i: int| 0 <= i < s.len() ==> spec_is_digit(s[i]),
        0 <= j <= s.len(),
    ensures
        spec_dec_value(s.take(j)) <= spec_dec_value(s),
    decreases s.len(),
{
    if j == s.len() {
        assert(s.take(j) =~= s);
    } else {
        assert(s.drop_last().take(j) =~= s.take(j));
        lemma_dec_prefix_le(s.drop_last(), j);
        lemma_dec_value_nonneg(s.drop_last());
    }
}

/// The digits of a number string: everything after an optional leading `+`.
pub open spec fn spec_num_body(s: Seq<char>) -> Seq<char> {
    if s.len() > 0 && s[0] == '+' {
        s.drop_first()
    } else {
        s
    }
}

/// The result of `str::parse::<usize>` on `s`: an optional leading `+`,
/// then decimal digits, rejecting overflow.
pub open spec fn spec_parse_usize(s: Seq<char>) -> Option<usize> {
    let t = spec_num_body(s);
    if spec_all_digits(t) && spec_dec_value(t) <= usize::MAX {
        Some(spec_dec_value(t) as usize)
    } else {
        None
    }
}

fn is_digit_char(c: char) -> (r: bool)
    ensures
        r == spec_is_digit(c),
{
    let v = c as u32;
    '0' as u32 <= v && v <= '9' as u32
}

/// Parses a decimal `usize`, as `str::parse::<usize>` does.
pub fn parse_usize_dec(s: &str) -> (r: Option<usize>)
    ensures
        r == spec_parse_usize(s@),
{
    let len = s.unicode_len();
    let mut start: usize = 0;
    if len > 0 && s.get_char(0) == '+' {
        start = 1;
    }
    let ghost t = spec_num_body(s@);
    proof {
        assert(t =~= s@.skip(start as int));
    }
    if start == len {
        return None;
    }
    let mut acc: usize = 0;
    let mut i: usize = start;
    proof {
        assert(t.take(0) =~= Seq::<char>::empty());
    }
    while i < len
        invariant
            len == s@.len(),
            start <= i <= len,
            start < len,
            t == spec_num_body(s@),
            t == s@.skip(start as int),
            forall|j: int| 0 <= j < i - start ==> spec_is_digit(t[j]),
            acc as int == spec_dec_value(t.take(i - start)),
        decreases len - i,
    {
        let c = s.get_char(i);
        proof {
            assert(t[i - start] == s@[i as int]);
        }
        if !is_digit_char(c) {
            proof {
                assert(!spec_all_digits(t)) by {
                    if spec_all_digits(t) {
                        assert(spec_is_digit(t[i - start]));
                    }
                }
            }
            return None;
        }
        let d = (c as u32 - '0' as u32) as usize;
        let ghost k = i - start;
        proof {
            assert(t.take(k + 1).drop_last() =~= t.take(k));
            assert(t.take(k + 1).last() == t[k]);
        }
        let next = match acc.checked_mul(10) {
            Some(m) => m.checked_add(d),
            None => None,
        };
        match next {
            Some(x) => {
                acc = x;
            },
            None => {
                proof {
                    // overflow: the full value can only be larger, so parsing fails
                    assert(spec_dec_value(t.take(k + 1)) > usize::MAX);
                    if spec_all_digits(t) {
                        lemma_dec_prefix_le(t, k + 1);
                        assert(spec_dec_value(t) > usize::MAX);
                    }
                }
                return None;
            },
        }
        i = i + 1;
    }
    proof {
        assert(t.take(len - start) =~= t);
        assert(spec_all_digits(t));
    }
    Some(acc)
}

pub open spec fn spec_is_hex_digit(c: char) -> bool {
    spec_is_digit(c) || ('a' as u32 <= c as u32 && c as u32 <= 'f' as u32) || ('A' as u32 <= c
        as u32 && c as u32 <= 'F' as u32)
}

pub open spec fn spec_hex_digit_val(c: char) -> int {
    if spec_is_digit(c) {
        c as u32 - '0' as u32
    } else if 'a' as u32 <= c as u32 && c as u32 <= 'f' as u32 {
        c as u32 - 'a' as u32 + 10
    } else {
        c as u32 - 'A' as u32 + 10
    }
}

/// The value of a string of hexadecimal digits.
pub open spec fn spec_hex_value(s: Seq<char>) -> int
    decreases s.len(),
{
    if s.len() == 0 {
        0
    } else {
        spec_hex_value(s.drop_last()) * 16 + spec_hex_digit_val(s.last())
    }
}

pub open spec fn spec_all_hex_digits(s: Seq<char>) -> bool {
    s.len() > 0 && forall|i: int| 0 <= i < s.len() ==> spec_is_hex_digit(s[i])
}

proof fn lemma_hex_value_nonneg(s: Seq<char>)
    requires
        forall|i: int| 0 <= i < s.len() ==> spec_is_hex_digit(s[i]),
    ensures
        spec_hex_value(s) >= 0,
    decreases s.len(),
{
    if s.len() > 0 {
        lemma_hex_value_nonneg(s.drop_last());
    }
}

proof fn lemma_hex_prefix_le(s: Seq<char>, j: int)
    requires
        forall|i: int| 0 <= i < s.len() ==> spec_is_hex_digit(s[i]),
        0 <= j <= s.len(),
    ensures
        spec_hex_value(s.take(j)) <= spec_hex_value(s),
    decreases s.len(),
{
    if j == s.len() {
        assert(s.take(j) =~= s);
    } else {
        assert(s.drop_last().take(j) =~= s.take(j));
        lemma_hex_prefix_le(s.drop_last(), j);
        lemma_hex_value_nonneg(s.drop_last());
    }
}

/// The result of `usize::from_str_radix(s, 16)`: an optional leading `+`,
/// then hexadecimal digits of either case, rejecting overflow.
pub open spec fn spec_parse_usize_hex(s: Seq<char>) -> Option<usize> {
    let t = spec_num_body(s);
    if spec_all_hex_digits(t) && spec_hex_value(t) <= usize::MAX {
        Some(spec_hex_value(t) as usize)
    } else {
        None
    }
}

fn hex_digit_val(c: char) -> (r: Option<u32>)
    ensures
        spec_is_hex_digit(c) ==> (r matches Some(v) && v as int == spec_hex_digit_val(c)),
        !spec_is_hex_digit(c) ==> r is None,
{
    let v = c as u32;
    if '0' as u32 <= v && v <= '9' as u32 {
        Some(v - '0' as u32)
    } else if 'a' as u32 <= v && v <= 'f' as u32 {
        Some(v - 'a' as u32 + 10)
    } else if 'A' as u32 <= v && v <= 'F' as u32 {
        Some(v - 'A' as u32 + 10)
    } else {
        None
    }
}

/// Parses a hexadecimal `usize`, as `usize::from_str_radix(s, 16)` does.
pub fn parse_usize_hex(s: &str) -> (r: Option<usize>)
    ensures
        r == spec_parse_usize_hex(s@),
{
    let len = s.unicode_len();
    let mut start: usize = 0;
    if len > 0 && s.get_char(0) == '+' {
        start = 1;
    }
    let ghost t = spec_num_body(s@);
    proof {
        assert(t =~= s@.skip(start as int));
    }
    if start == len {
        return None;
    }
    let mut acc: usize = 0;
    let mut i: usize = start;
    proof {
        assert(t.take(0) =~= Seq::<char>::empty());
    }
    while i < len
        invariant
            len == s@.len(),
            start <= i <= len,
            start < len,
            t == spec_num_body(s@),
            t == s@.skip(start as int),
            forall|j: int| 0 <= j < i - start ==> spec_is_hex_digit(t[j]),
            acc as int == spec_hex_value(t.take(i - start)),
        decreases len - i,
    {
        let c = s.get_char(i);
        proof {
            assert(t[i - start] == s@[i as int]);
        }
        let d = match hex_digit_val(c) {
            Some(d) => d as usize,
            None => {
                proof {
                    assert(!spec_all_hex_digits(t)) by {
                        if spec_all_hex_digits(t) {
                            assert(spec_is_hex_digit(t[i - start]));
                        }
                    }
                }
                return None;
            },
        };
        let ghost k = i - start;
        proof {
            assert(t.take(k + 1).drop_last() =~= t.take(k));
            assert(t.take(k + 1).last() == t[k]);
        }
        let next = match acc.checked_mul(16) {
            Some(m) => m.checked_add(d),
            None => None,
        };
        match next {
            Some(x) => {
                acc = x;
            },
            None => {
                proof {
                    // overflow: the full value can only be larger, so parsing fails
                    assert(spec_hex_value(t.take(k + 1)) > usize::MAX);
                    if spec_all_hex_digits(t) {
                        lemma_hex_prefix_le(t, k + 1);
                        assert(spec_hex_value(t) > usize::MAX);
                    }
                }
                return None;
            },
        }
        i = i + 1;
    }
    proof {
        assert(t.take(len - start) =~= t);
        assert(spec_all_hex_digits(t));
    }
    Some(acc)
}

// ---------------------------------------------------------------------------
// Formatting numbers
// ---------------------------------------------------------------------------

pub open spec fn spec_digit_char(d: int) -> char {
    if d == 0 {
        '0'
    } else if d == 1 {
        '1'
    } else if d == 2 {
        '2'
    } else if d == 3 {
        '3'
    } else if d == 4 {
        '4'
    } else if d == 5 {
        '5'
    } else if d == 6 {
        '6'
    } else if d == 7 {
        '7'
    } else if d == 8 {
        '8'
    } else {
        '9'
    }
}

/// The decimal digits of `n`, most significant first.
pub open spec fn spec_dec_digits(n: int) -> Seq<char>
    decreases n,
{
    if n < 10 {
        seq![spec_digit_char(n)]
    } else {
        spec_dec_digits(n / 10).push(spec_digit_char(n % 10))
    }
}

fn digit_char(d: usize) -> (c: char)
    requires
        d < 10,
    ensures
        c == spec_digit_char(d as int),
{
    match d {
        0 => '0',
        1 => '1',
        2 => '2',
        3 => '3',
        4 => '4',
        5 => '5',
        6 => '6',
        7 => '7',
        8 => '8',
        _ => '9',
    }
}

/// Renders `n` in decimal, as `usize::to_string` does.
pub fn usize_to_string(n: usize) -> (r: String)
    ensures
        r@ == spec_dec_digits(n as int),
    decreases n,
{
    if n < 10 {
        let mut s = String::new();
        push_char(&mut s, digit_char(n));
        proof {
            assert(s@ =~= seq![spec_digit_char(n as int)]);
        }
        s
    } else {
        let mut s = usize_to_string(n / 10);
        push_char(&mut s, digit_char(n % 10));
        s
    }
}

/// Renders `n` in decimal, as `u32::to_string` does.
pub fn u32_to_string(n: u32) -> (r: String)
    ensures
        r@ == spec_dec_digits(n as int),
{
    usize_to_string(n as usize)
}

/// Renders `n` in decimal, as `u64::to_string` does.
pub fn u64_to_string(n: u64) -> (r: String)
    ensures
        r@ == spec_dec_digits(n as int),
    decreases n,
{
    if n < 10 {
        let mut s = String::new();
        push_char(&mut s, digit_char((n % 10) as usize));
        proof {
            assert(s@ =~= seq![spec_digit_char(n as int)]);
        }
        s
    } else {
        let mut s = u64_to_string(n / 10);
        push_char(&mut s, digit_char((n % 10) as usize));
        s
    }
}

} // verus!
