//! The stored semantic version: `MAJOR.MINOR.PATCH` with optional build
//! metadata, parsed from the one-line version file and formatted back
//! without change, plus composition of the `branch-hash[-dirty]` metadata.

use vstd::prelude::*;
use vstd::string::*;
use crate::error::AtError;
use crate::text;

verus! {

/// A decimal digit.
pub open spec fn is_digit(c: char) -> bool {
    '0' <= c && c <= '9'
}

/// The numeric value of a decimal digit.
pub open spec fn digit_val(c: char) -> nat {
    (c as nat - '0' as nat) as nat
}

/// The character for a single decimal digit value.
pub open spec fn digit_char(d: nat) -> char {
    if d == 0 {
        '0'
    } else if d == 1 {
        '1'
    } else if d == 2 {
        '2'
    } else if d == 3 {
        '3'
    } else if d == 4 {
        '4'
    } else if d == 5 {
        '5'
    } else if d == 6 {
        '6'
    } else if d == 7 {
        '7'
    } else if d == 8 {
        '8'
    } else {
        '9'
    }
}

/// The canonical decimal rendering of `n`: nonempty, no leading zeros.
pub open spec fn dec_digits(n: nat) -> Seq<char>
    decreases n,
{
    if n < 10 {
        seq![digit_char(n)]
    } else {
        dec_digits(n / 10).push(digit_char(n % 10))
    }
}

/// A numeral: a nonempty digit string without leading zeros.
pub open spec fn is_numeral(s: Seq<char>) -> bool {
    &&& s.len() > 0
    &&& forall|i: int| 0 <= i < s.len() ==> is_digit(#[trigger] s[i])
    &&& (s.len() > 1 ==> s[0] != '0')
}

/// The value of a digit string, most significant digit first.
pub open spec fn numeral_val(s: Seq<char>) -> nat
    decreases s.len(),
{
    if s.len() == 0 {
        0
    } else {
        numeral_val(s.drop_last()) * 10 + digit_val(s.last())
    }
}

proof fn lemma_dec_digits_is_numeral(n: nat)
    ensures
        is_numeral(dec_digits(n)),
        numeral_val(dec_digits(n)) == n,
        dec_digits(n)[0] == '0' <==> n == 0,
    decreases n,
{
    if n < 10 {
        let s = seq![digit_char(n)];
        assert(dec_digits(n) =~= s);
        assert(s.drop_last() =~= Seq::<char>::empty());
        assert(numeral_val(Seq::<char>::empty()) == 0);
        assert(numeral_val(s) == digit_val(digit_char(n)));
        assert(digit_val(digit_char(n)) == n);
    } else {
        lemma_dec_digits_is_numeral(n / 10);
        let s = dec_digits(n);
        let f = dec_digits(n / 10);
        assert(s =~= f.push(digit_char(n % 10)));
        assert(s.drop_last() =~= f);
        assert(forall|i: int|
            0 <= i < s.len() ==> is_digit(#[trigger] s[i])) by {
            assert(forall|i: int| 0 <= i < f.len() ==> s[i] == f[i]);
        }
        assert(n / 10 != 0) by (nonlinear_arith)
            requires
                n >= 10,
        ;
        assert(numeral_val(s) == (n / 10) * 10 + n % 10);
        assert((n / 10) * 10 + n % 10 == n) by (nonlinear_arith);
    }
}

proof fn lemma_numeral_canonical(s: Seq<char>)
    requires
        is_numeral(s),
    ensures
        dec_digits(numeral_val(s)) == s,
    decreases s.len(),
{
    let d = digit_val(s.last());
    assert(is_digit(s.last()));
    assert(d < 10);
    if s.len() == 1 {
        assert(s.drop_last() =~= Seq::<char>::empty());
        assert(numeral_val(Seq::<char>::empty()) == 0);
        assert(numeral_val(s) == d);
        assert(digit_char(d) == s.last());
        assert(dec_digits(d) =~= seq![digit_char(d)]);
        assert(dec_digits(numeral_val(s)) =~= s);
    } else {
        let f = s.drop_last();
        assert(f.len() == s.len() - 1);
        assert(forall|i: int| 0 <= i < f.len() ==> f[i] == s[i]);
        assert(is_numeral(f));
        lemma_numeral_canonical(f);
        let vf = numeral_val(f);
        // The leading digit of `f` is nonzero, so its value is at least 1.
        lemma_numeral_leading_nonzero(f);
        assert(vf >= 1);
        let v = numeral_val(s);
        assert(v == vf * 10 + d);
        assert(v >= 10 && v / 10 == vf && v % 10 == d) by (nonlinear_arith)
            requires
                v == vf * 10 + d,
                vf >= 1,
                0 <= d < 10,
        ;
        assert(dec_digits(v) == dec_digits(vf).push(digit_char(d)));
        assert(digit_char(d) == s.last());
        assert(f.push(s.last()) =~= s);
    }
}

proof fn lemma_numeral_leading_nonzero(s: Seq<char>)
    requires
        is_numeral(s),
        s[0] != '0',
    ensures
        numeral_val(s) >= 1,
    decreases s.len(),
{
    if s.len() == 1 {
        assert(s.drop_last() =~= Seq::<char>::empty());
        assert(numeral_val(Seq::<char>::empty()) == 0);
        assert(s.last() == s[0]);
        assert(numeral_val(s) == digit_val(s[0]));
        assert(digit_val(s[0]) >= 1);
    } else {
        let f = s.drop_last();
        assert(forall|i: int| 0 <= i < f.len() ==> f[i] == s[i]);
        assert(is_numeral(f) && f[0] != '0');
        lemma_numeral_leading_nonzero(f);
        assert(numeral_val(s) == numeral_val(f) * 10 + digit_val(s.last()));
        assert(numeral_val(f) * 10 >= 10) by (nonlinear_arith)
            requires
                numeral_val(f) >= 1,
        ;
    }
}

/// Values below any digit string extended by one digit stay below it.
proof fn lemma_numeral_val_prefix_le(s: Seq<char>, i: int)
    requires
        0 <= i <= s.len(),
    ensures
        numeral_val(s.subrange(0, i)) <= numeral_val(s),
    decreases s.len() - i,
{
    if i == s.len() {
        assert(s.subrange(0, i) =~= s);
    } else {
        let t = s.subrange(0, i + 1);
        assert(t.drop_last() =~= s.subrange(0, i));
        assert(numeral_val(s.subrange(0, i)) <= numeral_val(t)) by {
            assert(numeral_val(t) == numeral_val(s.subrange(0, i)) * 10 + digit_val(t.last()));
            assert(numeral_val(s.subrange(0, i)) * 10 >= numeral_val(s.subrange(0, i)))
                by (nonlinear_arith);
        }
        lemma_numeral_val_prefix_le(s, i + 1);
    }
}

/// Executable digit test.
fn is_digit_char(c: char) -> (r: bool)
    ensures
        r == is_digit(c),
{
    '0' <= c && c <= '9'
}

/// The numeric value of a digit character.
fn digit_value(c: char) -> (r: u64)
    requires
        is_digit(c),
    ensures
        r as nat == digit_val(c),
        r < 10,
{
    match c {
        '0' => 0,
        '1' => 1,
        '2' => 2,
        '3' => 3,
        '4' => 4,
        '5' => 5,
        '6' => 6,
        '7' => 7,
        '8' => 8,
        _ => 9,
    }
}

/// The character of a single digit value.
fn digit_to_char(d: u64) -> (r: char)
    requires
        d < 10,
    ensures
        r == digit_char(d as nat),
{
    match d {
        0 => '0',
        1 => '1',
        2 => '2',
        3 => '3',
        4 => '4',
        5 => '5',
        6 => '6',
        7 => '7',
        8 => '8',
        _ => '9',
    }
}

/// Parse a numeral: the whole of `s` must be the canonical decimal rendering
/// of a value that fits in `u64`.
fn parse_numeral(s: &str) -> (r: Result<u64, ()>)
    ensures
        match r {
            Ok(n) => s@ == dec_digits(n as nat),
            Err(()) => forall|n: u64| s@ != dec_digits(n as nat),
        },
{
    let len = s.unicode_len();
    if len == 0 {
        proof {
            assert forall|n: u64| s@ != dec_digits(n as nat) by {
                lemma_dec_digits_is_numeral(n as nat);
            }
        }
        return Err(());
    }
    if len > 1 && s.get_char(0) == '0' {
        proof {
            assert forall|n: u64| s@ != dec_digits(n as nat) by {
                lemma_dec_digits_is_numeral(n as nat);
                if s@ == dec_digits(n as nat) {
                    assert(s@[0] == '0' && s@.len() > 1);
                    assert(n as nat == 0);
                    assert(dec_digits(0) =~= seq!['0']);
                }
            }
        }
        return Err(());
    }
    let mut acc: u64 = 0;
    let mut i: usize = 0;
    while i < len
        invariant
            0 <= i <= len,
            len == s@.len(),
            len > 0,
            len > 1 ==> s@[0] != '0',
            forall|k: int| 0 <= k < i ==> is_digit(#[trigger] s@[k]),
            acc as nat == numeral_val(s@.subrange(0, i as int)),
        decreases len - i,
    {
        let c = s.get_char(i);
        if !is_digit_char(c) {
            proof {
                assert forall|n: u64| s@ != dec_digits(n as nat) by {
                    lemma_dec_digits_is_numeral(n as nat);
                }
            }
            return Err(());
        }
        let d = digit_value(c);
        proof {
            assert(s@.subrange(0, i + 1).drop_last() =~= s@.subrange(0, i as int));
            assert(numeral_val(s@.subrange(0, i + 1)) == acc as nat * 10 + d as nat);
        }
        if acc > (u64::MAX - d) / 10 {
            proof {
                assert(acc as nat * 10 + d as nat > u64::MAX) by (nonlinear_arith)
                    requires
                        acc as nat > (u64::MAX - d as nat) / 10,
                        d < 10,
                ;
                lemma_numeral_val_prefix_le(s@, i + 1);
                assert(numeral_val(s@) > u64::MAX);
                assert forall|n: u64| s@ != dec_digits(n as nat) by {
                    lemma_dec_digits_is_numeral(n as nat);
                }
            }
            return Err(());
        }
        proof {
            assert(acc as nat * 10 + d as nat <= u64::MAX) by (nonlinear_arith)
                requires
                    acc as nat <= (u64::MAX - d as nat) / 10,
                    d < 10,
            ;
        }
        acc = acc * 10 + d;
        i = i + 1;
    }
    proof {
        assert(s@.subrange(0, len as int) =~= s@);
        assert(is_numeral(s@));
        lemma_numeral_canonical(s@);
    }
    Ok(acc)
}

/// The canonical `MAJOR.MINOR.PATCH` rendering of a version core.
pub open spec fn spec_core_str(major: nat, minor: nat, patch: nat) -> Seq<char> {
    dec_digits(major) + seq!['.'] + dec_digits(minor) + seq!['.'] + dec_digits(patch)
}

/// Parse the whole of `s` as `MAJOR.MINOR.PATCH`.
fn parse_core(s: &str) -> (r: Result<(u64, u64, u64), ()>)
    ensures
        match r {
            Ok((ma, mi, pa)) => s@ == spec_core_str(ma as nat, mi as nat, pa as nat),
            Err(()) => forall|ma: u64, mi: u64, pa: u64|
                s@ != spec_core_str(ma as nat, mi as nat, pa as nat),
        },
{
    let len = s.unicode_len();
    let i = text::find_char(s, '.');
    if i == len {
        proof {
            assert forall|ma: u64, mi: u64, pa: u64|
                s@ != spec_core_str(ma as nat, mi as nat, pa as nat) by {
                if s@ == spec_core_str(ma as nat, mi as nat, pa as nat) {
                    lemma_core_first_dot(s@, ma, mi, pa, i as int);
                }
            }
        }
        return Err(());
    }
    let rest = s.substring_char(i + 1, len);
    let j_rel = text::find_char(rest, '.');
    let j = i + 1 + j_rel;
    if j == len {
        proof {
            assert forall|ma: u64, mi: u64, pa: u64|
                s@ != spec_core_str(ma as nat, mi as nat, pa as nat) by {
                if s@ == spec_core_str(ma as nat, mi as nat, pa as nat) {
                    lemma_core_first_dot(s@, ma, mi, pa, i as int);
                    lemma_core_second_dot(rest@, mi, pa, j_rel as int);
                }
            }
        }
        return Err(());
    }
    let p1 = s.substring_char(0, i);
    let p2 = s.substring_char(i + 1, j);
    let p3 = s.substring_char(j + 1, len);
    let r1 = parse_numeral(p1);
    let r2 = parse_numeral(p2);
    let r3 = parse_numeral(p3);
    match (r1, r2, r3) {
        (Ok(ma), Ok(mi), Ok(pa)) => {
            proof {
                assert(s@ =~= p1@ + seq!['.'] + p2@ + seq!['.'] + p3@);
            }
            Ok((ma, mi, pa))
        },
        _ => {
            proof {
                assert forall|ma: u64, mi: u64, pa: u64|
                    s@ != spec_core_str(ma as nat, mi as nat, pa as nat) by {
                    if s@ == spec_core_str(ma as nat, mi as nat, pa as nat) {
                        lemma_core_first_dot(s@, ma, mi, pa, i as int);
                        lemma_core_second_dot(rest@, mi, pa, j_rel as int);
                        assert(p1@ == dec_digits(ma as nat));
                        assert(p2@ =~= rest@.subrange(0, j_rel as int));
                        assert(p3@ =~= rest@.subrange(j_rel + 1, rest@.len() as int));
                        assert(r1 is Err ==> p1@ != dec_digits(ma as nat));
                        assert(r2 is Err ==> p2@ != dec_digits(mi as nat));
                        assert(r3 is Err ==> p3@ != dec_digits(pa as nat));
                        assert(false);
                    }
                }
            }
            Err(())
        },
    }
}

/// A scan for the first dot of a well-formed core string lands after `MAJOR`.
proof fn lemma_core_first_dot(s: Seq<char>, ma: u64, mi: u64, pa: u64, i: int)
    requires
        s == spec_core_str(ma as nat, mi as nat, pa as nat),
        0 <= i <= s.len(),
        forall|k: int| 0 <= k < i ==> #[trigger] s[k] != '.',
        i < s.len() ==> s[i] == '.',
    ensures
        i == dec_digits(ma as nat).len(),
        i < s.len(),
        s.subrange(0, i) == dec_digits(ma as nat),
        s.subrange(i + 1, s.len() as int) == dec_digits(mi as nat) + seq!['.'] + dec_digits(
            pa as nat,
        ),
{
    let a = dec_digits(ma as nat);
    let b = dec_digits(mi as nat);
    let c = dec_digits(pa as nat);
    lemma_dec_digits_is_numeral(ma as nat);
    lemma_dec_digits_is_numeral(mi as nat);
    lemma_dec_digits_is_numeral(pa as nat);
    assert(s =~= a + seq!['.'] + (b + seq!['.'] + c));
    text::lemma_first_occurrence(s, a, b + seq!['.'] + c, '.', i);
}

/// A scan for the next dot of what follows `MAJOR.` lands after `MINOR`.
proof fn lemma_core_second_dot(rest: Seq<char>, mi: u64, pa: u64, j_rel: int)
    requires
        rest == dec_digits(mi as nat) + seq!['.'] + dec_digits(pa as nat),
        0 <= j_rel <= rest.len(),
        forall|k: int| 0 <= k < j_rel ==> #[trigger] rest[k] != '.',
        j_rel < rest.len() ==> rest[j_rel] == '.',
    ensures
        j_rel == dec_digits(mi as nat).len(),
        j_rel < rest.len(),
        rest.subrange(0, j_rel) == dec_digits(mi as nat),
        rest.subrange(j_rel + 1, rest.len() as int) == dec_digits(pa as nat),
{
    lemma_dec_digits_is_numeral(mi as nat);
    lemma_dec_digits_is_numeral(pa as nat);
    text::lemma_first_occurrence(rest, dec_digits(mi as nat), dec_digits(pa as nat), '.', j_rel);
}

/// A character allowed inside a build-metadata identifier.
pub open spec fn is_meta_char(c: char) -> bool {
    is_digit(c) || ('a' <= c && c <= 'z') || ('A' <= c && c <= 'Z') || c == '-'
}

/// Valid build metadata: one or more nonempty dot-separated identifiers,
/// each made of ASCII alphanumerics and hyphens.
pub open spec fn valid_metadata(s: Seq<char>) -> bool {
    &&& s.len() > 0
    &&& forall|i: int| 0 <= i < s.len() ==> is_meta_char(#[trigger] s[i]) || s[i] == '.'
    &&& s[0] != '.'
    &&& s[s.len() - 1] != '.'
    &&& forall|i: int| 1 <= i < s.len() ==> !(s[i - 1] == '.' && #[trigger] s[i] == '.')
}

/// Executable form of [`is_meta_char`].
fn is_meta_char_exec(c: char) -> (r: bool)
    ensures
        r == is_meta_char(c),
{
    ('0' <= c && c <= '9') || ('a' <= c && c <= 'z') || ('A' <= c && c <= 'Z') || c == '-'
}

/// Decide [`valid_metadata`] for the characters of `s`.
pub fn is_valid_metadata_str(s: &str) -> (r: bool)
    ensures
        r == valid_metadata(s@),
{
    let len = s.unicode_len();
    if len == 0 {
        return false;
    }
    if s.get_char(0) == '.' || s.get_char(len - 1) == '.' {
        return false;
    }
    let mut i: usize = 0;
    while i < len
        invariant
            0 <= i <= len,
            len == s@.len(),
            len > 0,
            s@[0] != '.',
            s@[len - 1] != '.',
            forall|k: int| 0 <= k < i ==> is_meta_char(#[trigger] s@[k]) || s@[k] == '.',
            forall|k: int| 1 <= k < i ==> !(s@[k - 1] == '.' && #[trigger] s@[k] == '.'),
        decreases len - i,
    {
        let c = s.get_char(i);
        if !is_meta_char_exec(c) && c != '.' {
            return false;
        }
        if i > 0 && c == '.' && s.get_char(i - 1) == '.' {
            return false;
        }
        i = i + 1;
    }
    true
}

/// The stored semantic version, with the optional build metadata that the
/// composer sets exactly once.
#[derive(Debug, Clone)]
pub struct AtVersion {
    pub major: u64,
    pub minor: u64,
    pub patch: u64,
    pub build: Option<String>,
}

impl AtVersion {
    /// Well-formedness: whatever metadata is present is valid build metadata.
    pub open spec fn wf(self) -> bool {
        match self.build {
            Option::Some(m) => valid_metadata(m@),
            Option::None => true,
        }
    }

    /// The rendering of this version: `MAJOR.MINOR.PATCH[+METADATA]`.
    pub open spec fn spec_str(self) -> Seq<char> {
        spec_core_str(self.major as nat, self.minor as nat, self.patch as nat) + match self.build {
            Option::Some(m) => seq!['+'] + m@,
            Option::None => Seq::<char>::empty(),
        }
    }
}

/// No character of a core rendering is a `+`.
proof fn lemma_core_str_no_plus(ma: nat, mi: nat, pa: nat)
    ensures
        forall|k: int|
            0 <= k < spec_core_str(ma, mi, pa).len() ==> #[trigger] spec_core_str(ma, mi, pa)[k]
                != '+',
{
    let a = dec_digits(ma);
    let b = dec_digits(mi);
    let c = dec_digits(pa);
    lemma_dec_digits_is_numeral(ma);
    lemma_dec_digits_is_numeral(mi);
    lemma_dec_digits_is_numeral(pa);
    let s = spec_core_str(ma, mi, pa);
    assert forall|k: int| 0 <= k < s.len() implies #[trigger] s[k] != '+' by {
        if k < a.len() {
            assert(s[k] == a[k]);
        } else if k == a.len() {
            assert(s[k] == '.');
        } else if k < a.len() + 1 + b.len() {
            assert(s[k] == b[k - a.len() - 1]);
        } else if k == a.len() + 1 + b.len() {
            assert(s[k] == '.');
        } else {
            assert(s[k] == c[k - a.len() - 2 - b.len()]);
        }
    }
}

/// Parse the whole of `s` as a rendered version.
pub fn parse_version(s: &str) -> (r: Result<AtVersion, ()>)
    ensures
        match r {
            Ok(v) => v.wf() && s@ == v.spec_str(),
            Err(()) => forall|v: AtVersion| v.wf() ==> s@ != #[trigger] v.spec_str(),
        },
{
    let len = s.unicode_len();
    let p = text::find_char(s, '+');
    if p == len {
        match parse_core(s) {
            Ok((ma, mi, pa)) => {
                let v = AtVersion { major: ma, minor: mi, patch: pa, build: None };
                proof {
                    assert(s@ =~= v.spec_str());
                }
                Ok(v)
            },
            Err(()) => {
                proof {
                    assert forall|v: AtVersion| v.wf() implies s@ != #[trigger] v.spec_str() by {
                        if s@ == v.spec_str() {
                            parse_version_shape(s@, v, p as int);
                        }
                    }
                }
                Err(())
            },
        }
    } else {
        let core = s.substring_char(0, p);
        let meta = s.substring_char(p + 1, len);
        let meta_ok = is_valid_metadata_str(meta);
        if !meta_ok {
            proof {
                assert forall|v: AtVersion| v.wf() implies s@ != #[trigger] v.spec_str() by {
                    if s@ == v.spec_str() {
                        parse_version_shape(s@, v, p as int);
                    }
                }
            }
            return Err(());
        }
        match parse_core(core) {
            Ok((ma, mi, pa)) => {
                let v = AtVersion { major: ma, minor: mi, patch: pa, build: Some(meta.to_owned()) };
                proof {
                    assert(s@ =~= v.spec_str());
                }
                Ok(v)
            },
            Err(()) => {
                proof {
                    assert forall|v: AtVersion| v.wf() implies s@ != #[trigger] v.spec_str() by {
                        if s@ == v.spec_str() {
                            parse_version_shape(s@, v, p as int);
                        }
                    }
                }
                Err(())
            },
        }
    }
}

/// Where the scan for `+` lands on a rendered version: at its end when the
/// version carries no metadata, else exactly between core and metadata.
proof fn parse_version_shape(s: Seq<char>, v: AtVersion, p: int)
    requires
        v.wf(),
        s == v.spec_str(),
        0 <= p <= s.len(),
        forall|k: int| 0 <= k < p ==> #[trigger] s[k] != '+',
        p < s.len() ==> s[p] == '+',
    ensures
        match v.build {
            Option::None => p == s.len() && s == spec_core_str(
                v.major as nat,
                v.minor as nat,
                v.patch as nat,
            ),
            Option::Some(m) => {
                &&& p == s.len() - m@.len() - 1
                &&& p < s.len()
                &&& s.subrange(0, p) == spec_core_str(
                    v.major as nat,
                    v.minor as nat,
                    v.patch as nat,
                )
                &&& s.subrange(p + 1, s.len() as int) == m@
                &&& valid_metadata(m@)
            },
        },
{
    let core = spec_core_str(v.major as nat, v.minor as nat, v.patch as nat);
    lemma_core_str_no_plus(v.major as nat, v.minor as nat, v.patch as nat);
    match v.build {
        Option::None => {
            assert(s =~= core);
            if p < s.len() {
                assert(s[p] != '+');
                assert(false);
            }
        },
        Option::Some(m) => {
            assert(s =~= core + seq!['+'] + m@);
            assert(forall|k: int| 0 <= k < core.len() ==> #[trigger] core[k] != '+');
            text::lemma_first_occurrence(s, core, m@, '+', p);
        },
    }
}

/// Format `n` as its canonical decimal rendering.
fn u64_to_dec(n: u64) -> (r: String)
    ensures
        r@ == dec_digits(n as nat),
    decreases n,
{
    if n < 10 {
        let mut s = String::new();
        s.push(digit_to_char(n));
        proof {
            assert(s@ =~= seq![digit_char(n as nat)]);
        }
        s
    } else {
        proof {
            assert(n / 10 < n) by (nonlinear_arith)
                requires
                    n >= 10,
            ;
        }
        let mut s = u64_to_dec(n / 10);
        s.push(digit_to_char(n % 10));
        s
    }
}

impl AtVersion {
    /// Parse the stored version file contents, ignoring surrounding
    /// whitespace. Anything else is rejected as unreadable.
    pub fn new(contents: &str) -> (r: Result<AtVersion, AtError>)
        ensures
            match r {
                Ok(v) => v.wf() && text::spec_trim(contents@) == v.spec_str(),
                Err(e) => e is VersionFileUnreadable && forall|v: AtVersion|
                    v.wf() ==> text::spec_trim(contents@) != #[trigger] v.spec_str(),
            },
    {
        let t = text::trim(contents);
        match parse_version(t) {
            Ok(v) => Ok(v),
            Err(()) => {
                let mut msg = "not a MAJOR.MINOR.PATCH version: ".to_owned();
                msg.append(t);
                Err(AtError::VersionFileUnreadable(msg))
            },
        }
    }

    /// Parse the stored version file contents and set its build metadata to
    /// `branch-hash[-dirty]`, read from the repository enclosing `path`.
    /// Any failure in branch, hash or dirty resolution propagates unchanged.
    pub fn with_metadata(contents: &str, path: &str) -> (r: Result<AtVersion, AtError>)
        ensures
            match r {
                Ok(v) => {
                    &&& v.wf()
                    &&& v.build is Some
                    &&& exists|w: AtVersion|
                        {
                            &&& w.wf()
                            &&& #[trigger] w.spec_str() == text::spec_trim(contents@)
                            &&& w.major == v.major
                            &&& w.minor == v.minor
                            &&& w.patch == v.patch
                        }
                },
                Err(e) => {
                    &&& e is VersionFileUnreadable ==> forall|w: AtVersion|
                        w.wf() ==> text::spec_trim(contents@) != #[trigger] w.spec_str()
                    &&& !(e is VersionFileUnreadable) ==> exists|w: AtVersion|
                        w.wf() && #[trigger] w.spec_str() == text::spec_trim(contents@)
                },
            },
    {
        let parsed = AtVersion::new(contents)?;
        let ghost file_version = parsed;
        let branch = crate::git::get_branch(path)?;
        let hash = crate::git::get_commit_hash(path)?;
        let dirty = crate::git::is_dirty(path)?;
        let meta = compose_build_metadata(branch.as_str(), hash.as_str(), dirty);
        let r = parsed.attach_build_metadata(meta);
        proof {
            assert(file_version.wf() && file_version.spec_str() == text::spec_trim(contents@));
        }
        r
    }

    /// Set this version's build metadata to `meta`: accepted exactly when
    /// `meta` is valid build metadata, otherwise the offending string is
    /// reported and nothing is altered silently.
    pub fn attach_build_metadata(self, meta: String) -> (r: Result<AtVersion, AtError>)
        ensures
            if valid_metadata(meta@) {
                r matches Ok(v) && v.major == self.major && v.minor == self.minor && v.patch
                    == self.patch && (v.build matches Some(m) && m@ == meta@) && v.wf()
            } else {
                r matches Err(e) && (e matches AtError::InvalidMetadata(m) && m@ == meta@)
            },
    {
        if is_valid_metadata_str(meta.as_str()) {
            Ok(
                AtVersion {
                    major: self.major,
                    minor: self.minor,
                    patch: self.patch,
                    build: Some(meta),
                },
            )
        } else {
            Err(AtError::InvalidMetadata(meta))
        }
    }

    /// Render this version as `MAJOR.MINOR.PATCH[+METADATA]`.
    pub fn to_version_string(&self) -> (r: String)
        ensures
            r@ == self.spec_str(),
    {
        let mut out = u64_to_dec(self.major);
        out.push('.');
        let mi = u64_to_dec(self.minor);
        out.append(mi.as_str());
        out.push('.');
        let pa = u64_to_dec(self.patch);
        out.append(pa.as_str());
        match &self.build {
            None => {},
            Some(m) => {
                out.push('+');
                out.append(m.as_str());
            },
        }
        proof {
            assert(out@ =~= self.spec_str());
        }
        out
    }
}

/// `branch` with every underscore replaced by a hyphen: build-metadata
/// identifiers are hyphen-delimited, and underscores would collide with the
/// separator scheme joining branch, hash and dirty flag.
pub open spec fn normalize_branch(s: Seq<char>) -> Seq<char> {
    s.map_values(|c: char| if c == '_' { '-' } else { c })
}

/// The composed build metadata: normalized branch, a hyphen, the hash, and
/// the literal suffix `-dirty` exactly when the tree was classified dirty.
pub open spec fn spec_compose(branch: Seq<char>, hash: Seq<char>, dirty: bool) -> Seq<char> {
    normalize_branch(branch) + seq!['-'] + hash + if dirty {
        "-dirty"@
    } else {
        Seq::<char>::empty()
    }
}

/// Compose the `branch-hash[-dirty]` build metadata string.
pub fn compose_build_metadata(branch: &str, hash: &str, dirty: bool) -> (r: String)
    ensures
        r@ == spec_compose(branch@, hash@, dirty),
{
    let len = branch.unicode_len();
    let mut out = String::new();
    let mut i: usize = 0;
    while i < len
        invariant
            0 <= i <= len,
            len == branch@.len(),
            out@.len() == i,
            forall|k: int|
                0 <= k < i ==> out@[k] == (if branch@[k] == '_' {
                    '-'
                } else {
                    branch@[k]
                }),
        decreases len - i,
    {
        let c = branch.get_char(i);
        if c == '_' {
            out.push('-');
        } else {
            out.push(c);
        }
        i = i + 1;
    }
    proof {
        assert(out@ =~= normalize_branch(branch@));
    }
    out.push('-');
    out.append(hash);
    if dirty {
        out.append("-dirty");
    }
    proof {
        assert(out@ =~= spec_compose(branch@, hash@, dirty));
    }
    out
}

/// Law: formatting is injective on well-formed versions — re-parsing a
/// composed version's rendering yields the same major, minor and patch, and
/// the identical metadata string.
pub proof fn lemma_version_round_trip(v: AtVersion, w: AtVersion)
    requires
        v.wf(),
        w.wf(),
        v.spec_str() == w.spec_str(),
    ensures
        v.major == w.major,
        v.minor == w.minor,
        v.patch == w.patch,
        match (v.build, w.build) {
            (Option::None, Option::None) => true,
            (Option::Some(a), Option::Some(b)) => a@ == b@,
            _ => false,
        },
{
    let s = v.spec_str();
    let vc = spec_core_str(v.major as nat, v.minor as nat, v.patch as nat);
    let wc = spec_core_str(w.major as nat, w.minor as nat, w.patch as nat);
    // Locate the `+` (or its absence) once; both decompositions must agree on it.
    let p: int = if exists|k: int| 0 <= k < s.len() && s[k] == '+' {
        choose_first(s, '+')
    } else {
        s.len() as int
    };
    parse_version_shape(s, v, p);
    parse_version_shape(s, w, p);
    match (v.build, w.build) {
        (Option::None, Option::None) => {
            lemma_core_str_injective(v, w, s);
        },
        (Option::Some(a), Option::Some(b)) => {
            assert(s.subrange(0, p) == vc && s.subrange(0, p) == wc);
            lemma_core_str_injective(v, w, vc);
        },
        _ => {},
    }
}

/// The least index of a `c` in `s`, when one exists.
proof fn choose_first(s: Seq<char>, c: char) -> (p: int)
    requires
        exists|k: int| 0 <= k < s.len() && s[k] == c,
    ensures
        0 <= p < s.len(),
        s[p] == c,
        forall|k: int| 0 <= k < p ==> #[trigger] s[k] != c,
    decreases s.len(),
{
    let w = choose|k: int| 0 <= k < s.len() && s[k] == c;
    let mut p: int = w;
    // Walk to the least witness by strong induction on the prefix.
    if exists|k: int| 0 <= k < w && s[k] == c {
        let t = s.subrange(0, w);
        assert(exists|k: int| 0 <= k < t.len() && t[k] == c) by {
            let k0 = choose|k: int| 0 <= k < w && s[k] == c;
            assert(t[k0] == c);
        }
        let q = choose_first(t, c);
        assert(s[q] == t[q]);
        assert forall|k: int| 0 <= k < q implies #[trigger] s[k] != c by {
            assert(s[k] == t[k]);
        }
        p = q;
    } else {
        assert(forall|k: int| 0 <= k < p ==> #[trigger] s[k] != c);
    }
    p
}

/// Core renderings are injective in each of the three numbers.
proof fn lemma_core_str_injective(v: AtVersion, w: AtVersion, s: Seq<char>)
    requires
        s == spec_core_str(v.major as nat, v.minor as nat, v.patch as nat),
        s == spec_core_str(w.major as nat, w.minor as nat, w.patch as nat),
    ensures
        v.major == w.major,
        v.minor == w.minor,
        v.patch == w.patch,
{
    let i: int = if exists|k: int| 0 <= k < s.len() && s[k] == '.' {
        choose_first(s, '.')
    } else {
        s.len() as int
    };
    lemma_core_first_dot(s, v.major, v.minor, v.patch, i);
    lemma_core_first_dot(s, w.major, w.minor, w.patch, i);
    assert(dec_digits(v.major as nat) == dec_digits(w.major as nat));
    lemma_dec_digits_is_numeral(v.major as nat);
    lemma_dec_digits_is_numeral(w.major as nat);
    assert(v.major == w.major);
    let rest = s.subrange(i + 1, s.len() as int);
    let j: int = if exists|k: int| 0 <= k < rest.len() && rest[k] == '.' {
        choose_first(rest, '.')
    } else {
        rest.len() as int
    };
    lemma_core_second_dot(rest, v.minor, v.patch, j);
    lemma_core_second_dot(rest, w.minor, w.patch, j);
    lemma_dec_digits_is_numeral(v.minor as nat);
    lemma_dec_digits_is_numeral(w.minor as nat);
    lemma_dec_digits_is_numeral(v.patch as nat);
    lemma_dec_digits_is_numeral(w.patch as nat);
}

} // verus!
