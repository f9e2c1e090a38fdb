use vstd::prelude::*;
use vstd::string::StringSliceAdditionalSpecFns;

verus! {

/// `true` when the two strings hold the same characters (std `str == str`).
#[verifier::external_body]
pub(crate) fn str_eq(a: &str, b: &str) -> (r: bool)
    ensures
        r == (a@ == b@),
{
    a == b
}

/// The ASCII digit for `d` (0 ≤ d ≤ 9).
pub open spec fn digit_char(d: int) -> char {
    ('0' as int + d) as char
}

/// Decimal notation of `n`, without sign or leading zeros.
pub open spec fn decimal(n: nat) -> Seq<char>
    decreases n,
{
    if n < 10 {
        seq![digit_char(n as int)]
    } else {
        decimal(n / 10).push(digit_char((n % 10) as int))
    }
}

/// Decimal notation of `n` (std `ToString` for `usize`).
#[verifier::external_body]
pub(crate) fn usize_to_string(n: usize) -> (r: String)
    ensures
        r@ == decimal(n as nat),
{
    n.to_string()
}

/// Unicode lower-case mapping of a string, as std's `str::to_lowercase` does it.
pub uninterp spec fn lowercase(s: Seq<char>) -> Seq<char>;

/// A character below 128.
pub open spec fn is_ascii_char(c: char) -> bool {
    (c as u32) < 128
}

/// The lower-case form of an ASCII character: `A`..=`Z` become `a`..=`z`, all others stay.
pub open spec fn ascii_lower(c: char) -> char {
    if 65 <= (c as u32) <= 90 {
        ((c as u32) + 32) as char
    } else {
        c
    }
}

/// std `str::to_lowercase`; on an all-ASCII string it maps each character as
/// `ascii_lower` does (std documents the mapping as Unicode's, which for ASCII
/// changes exactly the capital letters).
#[verifier::external_body]
pub(crate) fn to_lowercase(s: &str) -> (r: String)
    ensures
        r@ == lowercase(s@),
        (forall|i: int| 0 <= i < s@.len() ==> is_ascii_char(#[trigger] s@[i])) ==> r@ == s@.map_values(
            |c: char| ascii_lower(c),
        ),
{
    s.to_lowercase()
}

/// `s` with every `from` replaced by `to`.
pub open spec fn replace_char(s: Seq<char>, from: char, to: char) -> Seq<char> {
    s.map_values(|c: char| if c == from { to } else { c })
}

/// std `str::replace` with a one-character pattern and a one-character replacement.
#[verifier::external_body]
pub(crate) fn replace_char_exec(s: &str, from: char, to: char) -> (r: String)
    ensures
        r@ == replace_char(s@, from, to),
{
    s.replace(from, &to.to_string())
}

/// Append character `c` to `s` (std `String::push`).
#[verifier::external_body]
pub(crate) fn push_char(s: &mut String, c: char)
    ensures
        final(s)@ == old(s)@.push(c),
{
    s.push(c)
}

/// The concatenation of the given pieces.
pub open spec fn concat_all(parts: Seq<Seq<char>>) -> Seq<char>
    decreases parts.len(),
{
    if parts.len() == 0 {
        seq![]
    } else {
        concat_all(parts.drop_last()) + parts.last()
    }
}

/// The characters of `s` (std `str::chars`, collected).
#[verifier::external_body]
pub(crate) fn chars_of(s: &str) -> (r: Vec<char>)
    ensures
        r@ == s@,
{
    s.chars().collect()
}

/// Unicode White_Space, as std's `char::is_whitespace` tests it.
pub open spec fn is_ws(c: char) -> bool {
    let u = c as u32;
    u == 0x20 || (0x09 <= u <= 0x0d) || u == 0x85 || u == 0xa0 || u == 0x1680 || (0x2000 <= u <= 0x200a)
        || u == 0x2028 || u == 0x2029 || u == 0x202f || u == 0x205f || u == 0x3000
}

/// `true` when `c` is white space.
pub fn is_whitespace(c: char) -> (r: bool)
    ensures
        r == is_ws(c),
{
    let u = c as u32;
    u == 0x20 || (0x09 <= u && u <= 0x0d) || u == 0x85 || u == 0xa0 || u == 0x1680 || (0x2000 <= u && u <= 0x200a)
        || u == 0x2028 || u == 0x2029 || u == 0x202f || u == 0x205f || u == 0x3000
}

/// Index of the first `'\n'` at or after `p`, or the length of `s`.
pub open spec fn line_end(s: Seq<char>, p: int) -> int
    decreases s.len() - p,
{
    if p >= s.len() || p < 0 {
        s.len() as int
    } else if s[p] == '\n' {
        p
    } else {
        line_end(s, p + 1)
    }
}

/// Index of the first non-white-space character of `s[p..e)`, or `e`.
pub open spec fn first_non_ws(s: Seq<char>, p: int, e: int) -> int
    decreases e - p,
{
    if p >= e {
        e
    } else if !is_ws(s[p]) {
        p
    } else {
        first_non_ws(s, p + 1, e)
    }
}

/// The line `s[p..e)` holds code: after trimming white space it is not empty and
/// does not start with `//`, `/*` or `*`.
pub open spec fn significant_line(s: Seq<char>, p: int, e: int) -> bool {
    let f = first_non_ws(s, p, e);
    &&& f < e
    &&& s[f] != '*'
    &&& !(s[f] == '/' && f + 1 < e && (s[f + 1] == '/' || s[f + 1] == '*'))
}

/// Number of significant lines of `s` from position `p` on, lines being separated by `'\n'`.
pub open spec fn sloc_from(s: Seq<char>, p: int) -> nat
    decreases s.len() + 1 - p,
{
    if p < 0 || p >= s.len() {
        0
    } else {
        proof {
            lemma_line_end(s, p);
        }
        let e = line_end(s, p);
        (if significant_line(s, p, e) { 1nat } else { 0nat }) + sloc_from(s, e + 1)
    }
}

pub proof fn lemma_line_end(s: Seq<char>, p: int)
    requires
        0 <= p <= s.len(),
    ensures
        p <= line_end(s, p) <= s.len(),
        line_end(s, p) < s.len() ==> s[line_end(s, p)] == '\n',
    decreases s.len() - p,
{
    if p < s.len() && s[p] != '\n' {
        lemma_line_end(s, p + 1);
    }
}

pub proof fn lemma_first_non_ws(s: Seq<char>, p: int, e: int)
    requires
        p <= e,
    ensures
        p <= first_non_ws(s, p, e) <= e,
    decreases e - p,
{
    if p < e && is_ws(s[p]) {
        lemma_first_non_ws(s, p + 1, e);
    }
}

pub proof fn lemma_sloc_bound(s: Seq<char>, p: int)
    requires
        0 <= p,
    ensures
        sloc_from(s, p) <= if p < s.len() { s.len() - p } else { 0 },
    decreases s.len() + 1 - p,
{
    if p < s.len() {
        lemma_line_end(s, p);
        lemma_sloc_bound(s, line_end(s, p) + 1);
    }
}

/// Number of significant lines of `text`: lines that, trimmed of white space, are
/// not empty and do not start with `//`, `/*` or `*`.
pub fn count_sloc_str(text: &str) -> (r: usize)
    ensures
        r == sloc_from(text@, 0),
{
    let cs = chars_of(text);
    let n = cs.len();
    let mut count: usize = 0;
    let mut p: usize = 0;
    while p < n
        invariant
            n == cs@.len(),
            cs@ == text@,
            p <= n,
            count + sloc_from(cs@, p as int) == sloc_from(cs@, 0),
            count <= p,
        decreases n - p,
    {
        let mut e = p;
        while e < n && cs[e] != '\n'
            invariant
                n == cs@.len(),
                p <= e <= n,
                line_end(cs@, e as int) == line_end(cs@, p as int),
            decreases n - e,
        {
            e = e + 1;
        }
        let mut f = p;
        while f < e && is_whitespace(cs[f])
            invariant
                n == cs@.len(),
                p <= f <= e <= n,
                first_non_ws(cs@, f as int, e as int) == first_non_ws(cs@, p as int, e as int),
            decreases e - f,
        {
            f = f + 1;
        }
        let sig = f < e && cs[f] != '*' && !(cs[f] == '/' && f + 1 < e && (cs[f + 1] == '/' || cs[f + 1] == '*'));
        proof {
            lemma_sloc_bound(cs@, e + 1);
        }
        if sig {
            count = count + 1;
        }
        if e < n {
            p = e + 1;
        } else {
            p = n;
        }
    }
    count
}

/// Unicode Uppercase property of a character, as std's `char::is_uppercase` tests it.
pub uninterp spec fn is_upper(c: char) -> bool;

/// std `char::is_uppercase`; among ASCII characters exactly `A`..=`Z` are upper-case.
#[verifier::external_body]
pub(crate) fn char_is_uppercase(c: char) -> (r: bool)
    ensures
        r == is_upper(c),
        is_ascii_char(c) ==> (r <==> 65 <= (c as u32) <= 90),
{
    c.is_uppercase()
}

/// First character of `s`, if any.
pub fn first_char(s: &str) -> (r: Option<char>)
    ensures
        r is Some <==> s@.len() > 0,
        r matches Some(c) ==> c == s@[0],
{
    let cs = chars_of(s);
    if cs.len() > 0 {
        Some(cs[0])
    } else {
        None
    }
}

/// Number of lines of `s` from position `p` on (that line being number `row`) whose
/// number lies in `[lo, hi]` and that hold a non-white-space character.
pub open spec fn nonblank_rows_from(s: Seq<char>, p: int, row: int, lo: int, hi: int) -> nat
    decreases s.len() + 1 - p,
{
    if p < 0 || p >= s.len() {
        0
    } else {
        proof {
            lemma_line_end(s, p);
        }
        let e = line_end(s, p);
        (if lo <= row <= hi && first_non_ws(s, p, e) < e { 1nat } else { 0nat }) + nonblank_rows_from(
            s,
            e + 1,
            row + 1,
            lo,
            hi,
        )
    }
}

pub proof fn lemma_nonblank_bound(s: Seq<char>, p: int, row: int, lo: int, hi: int)
    requires
        0 <= p,
    ensures
        nonblank_rows_from(s, p, row, lo, hi) <= if p < s.len() { s.len() - p } else { 0 },
    decreases s.len() + 1 - p,
{
    if p < s.len() {
        lemma_line_end(s, p);
        lemma_nonblank_bound(s, line_end(s, p) + 1, row + 1, lo, hi);
    }
}

/// Number of lines of `text` numbered (from 0) within `[lo, hi]` that are not blank.
pub fn count_nonblank_lines(text: &str, lo: usize, hi: usize) -> (r: usize)
    ensures
        r == nonblank_rows_from(text@, 0, 0, lo as int, hi as int),
{
    let cs = chars_of(text);
    let n = cs.len();
    let mut count: usize = 0;
    let mut p: usize = 0;
    let mut row: usize = 0;
    while p < n
        invariant
            n == cs@.len(),
            cs@ == text@,
            p <= n,
            row <= p,
            count + nonblank_rows_from(cs@, p as int, row as int, lo as int, hi as int) == nonblank_rows_from(
                cs@,
                0,
                0,
                lo as int,
                hi as int,
            ),
            count <= p,
        decreases n - p,
    {
        let mut e = p;
        while e < n && cs[e] != '\n'
            invariant
                n == cs@.len(),
                p <= e <= n,
                line_end(cs@, e as int) == line_end(cs@, p as int),
            decreases n - e,
        {
            e = e + 1;
        }
        let mut f = p;
        while f < e && is_whitespace(cs[f])
            invariant
                n == cs@.len(),
                p <= f <= e <= n,
                first_non_ws(cs@, f as int, e as int) == first_non_ws(cs@, p as int, e as int),
            decreases e - f,
        {
            f = f + 1;
        }
        proof {
            lemma_nonblank_bound(cs@, e + 1, row + 1, lo as int, hi as int);
        }
        if lo <= row && row <= hi && f < e {
            count = count + 1;
        }
        if e < n {
            p = e + 1;
            row = row + 1;
        } else {
            p = n;
        }
    }
    count
}

/// `true` when `s` equals one of the strings in `list`.
pub fn str_in(s: &str, list: &[&str]) -> (r: bool)
    ensures
        r == crate::syntax::names(list@).contains(s@),
{
    let mut x: usize = 0;
    while x < list.len()
        invariant
            x <= list@.len(),
            forall|y: int| 0 <= y < x ==> list@[y]@ != s@,
        decreases list.len() - x,
    {
        if str_eq(s, list[x]) {
            proof {
                assert(crate::syntax::names(list@)[x as int] == s@);
            }
            return true;
        }
        x = x + 1;
    }
    proof {
        if crate::syntax::names(list@).contains(s@) {
            let y = choose|y: int| 0 <= y < crate::syntax::names(list@).len() && crate::syntax::names(list@)[y] == s@;
            assert(list@[y]@ == s@);
        }
    }
    false
}

/// The part of `s` between byte offsets `a` and `b` (std `str::get(a..b)`):
/// present exactly when the range lies inside `s` and both ends fall on
/// character boundaries.
#[verifier::external_body]
pub(crate) fn str_get(s: &str, a: usize, b: usize) -> (r: Option<&str>)
    ensures
        r is Some <==> (a <= b <= s.spec_bytes().len() && vstd::utf8::is_char_boundary(s.spec_bytes(), a as int)
            && vstd::utf8::is_char_boundary(s.spec_bytes(), b as int)),
        r matches Some(t) ==> t.spec_bytes() == s.spec_bytes().subrange(a as int, b as int),
{
    s.get(a..b)
}

/// `true` when `s` ends with `suffix` (std `str::ends_with`).
#[verifier::external_body]
pub(crate) fn ends_with(s: &str, suffix: &str) -> (r: bool)
    ensures
        r == (s@.len() >= suffix@.len() && s@.subrange(s@.len() - suffix@.len(), s@.len() as int) == suffix@),
{
    s.ends_with(suffix)
}

/// `true` when `s` starts with `prefix` (std `str::starts_with`).
#[verifier::external_body]
pub(crate) fn starts_with(s: &str, prefix: &str) -> (r: bool)
    ensures
        r == prefix@.is_prefix_of(s@),
{
    s.starts_with(prefix)
}

/// One past the last non-white-space character of `s[p..e)`, or `p`.
pub open spec fn trim_end_at(s: Seq<char>, p: int, e: int) -> int
    decreases e - p,
{
    if e <= p {
        p
    } else if !is_ws(s[e - 1]) {
        e
    } else {
        trim_end_at(s, p, e - 1)
    }
}

/// `s` without leading and trailing white space.
pub open spec fn trimmed(s: Seq<char>) -> Seq<char> {
    let a = first_non_ws(s, 0, s.len() as int);
    s.subrange(a, trim_end_at(s, a, s.len() as int))
}

/// Position of the first `ch` in `s` from `p` on, or the length of `s`.
pub open spec fn char_pos(s: Seq<char>, ch: char, p: int) -> int
    decreases s.len() - p,
{
    if p >= s.len() || p < 0 {
        s.len() as int
    } else if s[p] == ch {
        p
    } else {
        char_pos(s, ch, p + 1)
    }
}

/// The part of `s` before its first `ch` (all of `s` when there is none).
pub open spec fn before_char(s: Seq<char>, ch: char) -> Seq<char> {
    s.take(char_pos(s, ch, 0))
}

/// The characters `cs[a..b)` as a string.
fn string_of(cs: &Vec<char>, a: usize, b: usize) -> (r: String)
    requires
        a <= b <= cs@.len(),
    ensures
        r@ == cs@.subrange(a as int, b as int),
{
    let mut out = String::new();
    let mut i = a;
    while i < b
        invariant
            a <= i <= b <= cs@.len(),
            out@ == cs@.subrange(a as int, i as int),
        decreases b - i,
    {
        push_char(&mut out, cs[i]);
        i = i + 1;
        proof {
            assert(out@ =~= cs@.subrange(a as int, i as int));
        }
    }
    out
}

/// The text before the first `ch`, trimmed of white space.
pub fn trimmed_before(text: &str, ch: char) -> (r: String)
    ensures
        r@ == trimmed(before_char(text@, ch)),
{
    let cs = chars_of(text);
    let n = cs.len();
    let mut k: usize = 0;
    while k < n && cs[k] != ch
        invariant
            n == cs@.len(),
            cs@ == text@,
            k <= n,
            char_pos(text@, ch, k as int) == char_pos(text@, ch, 0),
        decreases n - k,
    {
        k = k + 1;
    }
    let ghost pre = text@.take(k as int);
    proof {
        assert(char_pos(text@, ch, k as int) == k);
        assert(pre == before_char(text@, ch));
    }
    let mut a: usize = 0;
    while a < k && is_whitespace(cs[a])
        invariant
            k <= n == cs@.len(),
            cs@ == text@,
            pre == text@.take(k as int),
            a <= k,
            first_non_ws(pre, a as int, k as int) == first_non_ws(pre, 0, k as int),
        decreases k - a,
    {
        a = a + 1;
    }
    proof {
        assert(first_non_ws(pre, a as int, k as int) == a);
    }
    let mut b: usize = k;
    while b > a && is_whitespace(cs[b - 1])
        invariant
            k <= n == cs@.len(),
            cs@ == text@,
            pre == text@.take(k as int),
            a <= b <= k,
            trim_end_at(pre, a as int, b as int) == trim_end_at(pre, a as int, k as int),
        decreases b,
    {
        b = b - 1;
    }
    proof {
        assert(trim_end_at(pre, a as int, b as int) == b);
        assert(pre.subrange(a as int, b as int) =~= cs@.subrange(a as int, b as int));
    }
    string_of(&cs, a, b)
}

} // verus!
