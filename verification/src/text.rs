//! Shared character and string helpers: whitespace trimming and
//! first-occurrence scanning over the characters of a string slice.

use vstd::prelude::*;
use vstd::string::*;

verus! {

/// Appending one character to a `String` appends exactly that character to its view.
pub assume_specification[ String::push ](s: &mut String, ch: char)
    ensures
        final(s)@ == old(s)@.push(ch),
;

/// The characters stripped from both ends of a stored version string:
/// the Unicode White_Space set.
pub open spec fn is_space(c: char) -> bool {
    ||| ('\u{09}' <= c && c <= '\u{0D}')
    ||| c == ' '
    ||| c == '\u{85}'
    ||| c == '\u{A0}'
    ||| c == '\u{1680}'
    ||| ('\u{2000}' <= c && c <= '\u{200A}')
    ||| c == '\u{2028}'
    ||| c == '\u{2029}'
    ||| c == '\u{202F}'
    ||| c == '\u{205F}'
    ||| c == '\u{3000}'
}

/// `s` with leading whitespace characters removed.
pub open spec fn trim_front(s: Seq<char>) -> Seq<char>
    decreases s.len(),
{
    if s.len() > 0 && is_space(s[0]) {
        trim_front(s.drop_first())
    } else {
        s
    }
}

/// `s` with trailing whitespace characters removed.
pub open spec fn trim_back(s: Seq<char>) -> Seq<char>
    decreases s.len(),
{
    if s.len() > 0 && is_space(s.last()) {
        trim_back(s.drop_last())
    } else {
        s
    }
}

/// `s` with whitespace characters removed from both ends.
pub open spec fn spec_trim(s: Seq<char>) -> Seq<char> {
    trim_back(trim_front(s))
}

pub proof fn lemma_trim_front_prefix(s: Seq<char>, i: int)
    requires
        0 <= i <= s.len(),
        forall|k: int| 0 <= k < i ==> is_space(s[k]),
        i < s.len() ==> !is_space(s[i]),
    ensures
        trim_front(s) == s.subrange(i, s.len() as int),
    decreases i,
{
    if i == 0 {
        if s.len() > 0 && is_space(s[0]) {
            assert(false);
        }
        assert(s.subrange(0, s.len() as int) =~= s);
    } else {
        assert(is_space(s[0]));
        let t = s.drop_first();
        lemma_trim_front_prefix(t, i - 1);
        assert(t.subrange(i - 1, t.len() as int) =~= s.subrange(i, s.len() as int));
    }
}

pub proof fn lemma_trim_back_suffix(s: Seq<char>, j: int)
    requires
        0 <= j <= s.len(),
        forall|k: int| j <= k < s.len() ==> is_space(s[k]),
        j > 0 ==> !is_space(s[j - 1]),
    ensures
        trim_back(s) == s.subrange(0, j),
    decreases s.len() - j,
{
    if j == s.len() {
        if s.len() > 0 && is_space(s.last()) {
            assert(false);
        }
        assert(s.subrange(0, s.len() as int) =~= s);
    } else {
        assert(is_space(s.last()));
        let t = s.drop_last();
        lemma_trim_back_suffix(t, j);
        assert(t.subrange(0, j) =~= s.subrange(0, j));
    }
}

/// Strip whitespace from both ends of `s`.
pub fn trim(s: &str) -> (r: &str)
    ensures
        r@ == spec_trim(s@),
{
    let len = s.unicode_len();
    let mut start: usize = 0;
    while start < len && is_space_char(s.get_char(start))
        invariant
            0 <= start <= len,
            len == s@.len(),
            forall|k: int| 0 <= k < start ==> is_space(s@[k]),
        decreases len - start,
    {
        start = start + 1;
    }
    let mut end: usize = len;
    while end > start && is_space_char(s.get_char(end - 1))
        invariant
            start <= end <= len,
            len == s@.len(),
            forall|k: int| 0 <= k < start ==> is_space(s@[k]),
            forall|k: int| end <= k < len ==> is_space(s@[k]),
        decreases end,
    {
        end = end - 1;
    }
    proof {
        lemma_trim_front_prefix(s@, start as int);
        let t = s@.subrange(start as int, s@.len() as int);
        if end == start {
            lemma_trim_back_suffix(t, 0);
        } else {
            lemma_trim_back_suffix(t, end - start);
        }
        assert(t.subrange(0, end - start) =~= s@.subrange(start as int, end as int));
    }
    s.substring_char(start, end)
}

/// Executable form of [`is_space`].
pub fn is_space_char(c: char) -> (r: bool)
    ensures
        r == is_space(c),
{
    ('\u{09}' <= c && c <= '\u{0D}') || c == ' ' || c == '\u{85}' || c == '\u{A0}' || c
        == '\u{1680}' || ('\u{2000}' <= c && c <= '\u{200A}') || c == '\u{2028}' || c == '\u{2029}'
        || c == '\u{202F}' || c == '\u{205F}' || c == '\u{3000}'
}

/// Index of the first occurrence of `c` among the characters of `s`,
/// or the character count of `s` if `c` does not occur.
pub fn find_char(s: &str, c: char) -> (r: usize)
    ensures
        0 <= r <= s@.len(),
        forall|k: int| 0 <= k < r ==> s@[k] != c,
        r < s@.len() ==> s@[r as int] == c,
{
    let len = s.unicode_len();
    let mut i: usize = 0;
    while i < len && s.get_char(i) != c
        invariant
            0 <= i <= len,
            len == s@.len(),
            forall|k: int| 0 <= k < i ==> s@[k] != c,
        decreases len - i,
    {
        i = i + 1;
    }
    i
}

/// The index of the first occurrence of `c` in `s`, or `s.len()` if absent.
pub open spec fn spec_find(s: Seq<char>, c: char) -> int
    decreases s.len(),
{
    if s.len() == 0 {
        0
    } else if s[0] == c {
        0
    } else {
        1 + spec_find(s.drop_first(), c)
    }
}

/// What [`spec_find`] returns: the least index holding `c`, or the length.
pub proof fn lemma_spec_find(s: Seq<char>, c: char)
    ensures
        0 <= spec_find(s, c) <= s.len(),
        forall|k: int| 0 <= k < spec_find(s, c) ==> #[trigger] s[k] != c,
        spec_find(s, c) < s.len() ==> s[spec_find(s, c)] == c,
    decreases s.len(),
{
    if s.len() == 0 || s[0] == c {
    } else {
        let t = s.drop_first();
        lemma_spec_find(t, c);
        assert forall|k: int| 0 <= k < spec_find(s, c) implies #[trigger] s[k] != c by {
            if k > 0 {
                assert(s[k] == t[k - 1]);
            }
        }
        if spec_find(s, c) < s.len() {
            assert(s[spec_find(s, c)] == t[spec_find(t, c)]);
        }
    }
}

/// Any index with the first-occurrence properties is [`spec_find`]'s value.
pub proof fn lemma_find_unique(s: Seq<char>, c: char, i: int)
    requires
        0 <= i <= s.len(),
        forall|k: int| 0 <= k < i ==> #[trigger] s[k] != c,
        i < s.len() ==> s[i] == c,
    ensures
        i == spec_find(s, c),
{
    lemma_spec_find(s, c);
    let f = spec_find(s, c);
    if i < f {
        assert(s[i] != c);
        assert(false);
    }
    if f < i {
        assert(s[f] != c);
        assert(false);
    }
}

/// If `s` is `a`, a single `d`, then `rest`, and `a` itself is free of `d`,
/// then the first occurrence of `d` in `s` sits exactly after `a`.
pub proof fn lemma_first_occurrence(s: Seq<char>, a: Seq<char>, rest: Seq<char>, d: char, i: int)
    requires
        s == a + seq![d] + rest,
        forall|k: int| 0 <= k < a.len() ==> #[trigger] a[k] != d,
        0 <= i <= s.len(),
        forall|k: int| 0 <= k < i ==> #[trigger] s[k] != d,
        i < s.len() ==> s[i] == d,
    ensures
        i == a.len(),
        s.subrange(0, i) == a,
        s.subrange(i + 1, s.len() as int) == rest,
{
    assert(s.len() == a.len() + 1 + rest.len());
    assert(s[a.len() as int] == d);
    assert(forall|k: int| 0 <= k < a.len() ==> s[k] == #[trigger] a[k]);
    if i < a.len() {
        assert(s[i] == a[i]);
        assert(false);
    }
    if i > a.len() {
        assert(s[a.len() as int] != d);
        assert(false);
    }
    assert(s.subrange(0, i) =~= a);
    assert(s.subrange(i + 1, s.len() as int) =~= rest);
}

/// Whether `a` and `b` hold the same characters.
pub fn str_eq(a: &str, b: &str) -> (r: bool)
    ensures
        r == (a@ == b@),
{
    let n = a.unicode_len();
    let m = b.unicode_len();
    if n != m {
        proof {
            assert(a@ != b@);
        }
        return false;
    }
    let mut i: usize = 0;
    while i < n
        invariant
            0 <= i <= n,
            n == a@.len(),
            n == b@.len(),
            forall|k: int| 0 <= k < i ==> a@[k] == b@[k],
        decreases n - i,
    {
        if a.get_char(i) != b.get_char(i) {
            return false;
        }
        i = i + 1;
    }
    proof {
        assert(a@ =~= b@);
    }
    true
}

/// `c` matches the lowercase ASCII letter `k`, ignoring case.
pub open spec fn char_matches_ci(c: char, k: char) -> bool {
    c == k || c as nat + 32 == k as nat
}

/// `s` spells the lowercase ASCII keyword `kw`, ignoring case.
pub open spec fn matches_keyword(s: Seq<char>, kw: Seq<char>) -> bool {
    s.len() == kw.len() && forall|i: int| 0 <= i < s.len() ==> char_matches_ci(
        #[trigger] s[i],
        kw[i],
    )
}

/// Decide [`matches_keyword`] for the characters of `s` against `kw`.
pub fn eq_ignore_case(s: &str, kw: &str) -> (r: bool)
    ensures
        r == matches_keyword(s@, kw@),
{
    let n = s.unicode_len();
    let m = kw.unicode_len();
    if n != m {
        return false;
    }
    let mut i: usize = 0;
    while i < n
        invariant
            0 <= i <= n,
            n == s@.len(),
            n == kw@.len(),
            forall|k: int| 0 <= k < i ==> char_matches_ci(#[trigger] s@[k], kw@[k]),
        decreases n - i,
    {
        let c = s.get_char(i);
        let k = kw.get_char(i);
        if !(c == k || (c as u32) + 32 == (k as u32)) {
            return false;
        }
        i = i + 1;
    }
    true
}

} // verus!
