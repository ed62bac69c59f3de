//! Semantic versions as plain `major.minor.patch` triples: ordering,
//! rendering, and parsing.

use vstd::prelude::*;
use vstd::string::StringExecFns;

use crate::error::InstallError;
use crate::text::{dec_rep, u64_to_dec};

verus! {

/// A semantic version, reduced to its numeric triple.
#[derive(Clone, Copy, Debug, PartialEq, Eq, Structural)]
pub struct Version {
    pub major: u64,
    pub minor: u64,
    pub patch: u64,
}

/// Lexicographic order on (major, minor, patch).
pub open spec fn version_lt(a: Version, b: Version) -> bool {
    a.major < b.major || (a.major == b.major && (a.minor < b.minor || (a.minor == b.minor
        && a.patch < b.patch)))
}

/// `major.minor.patch` in decimal.
pub open spec fn spec_render_version(v: Version) -> Seq<char> {
    dec_rep(v.major as nat) + seq!['.'] + dec_rep(v.minor as nat) + seq!['.'] + dec_rep(
        v.patch as nat,
    )
}

/// A decimal digit.
pub open spec fn is_digit(c: char) -> bool {
    '0' <= c && c <= '9'
}

/// The value of one decimal digit.
pub open spec fn digit_val(c: char) -> nat
    recommends
        is_digit(c),
{
    (c as int - 48) as nat
}

/// The value of a digit string, read most significant digit first.
pub open spec fn dec_val(s: Seq<char>) -> nat
    decreases s.len(),
{
    if s.len() == 0 {
        0
    } else {
        dec_val(s.drop_last()) * 10 + digit_val(s.last())
    }
}

/// A non-empty, all-digit string.
pub open spec fn all_digits(s: Seq<char>) -> bool {
    s.len() > 0 && forall|i: int| 0 <= i < s.len() ==> is_digit(s[i])
}

/// A version string of the accepted shape: three non-empty digit runs
/// separated by single dots.
pub open spec fn version_shape(s: Seq<char>, i: int, j: int) -> bool {
    0 <= i < j < s.len() && s[i] == '.' && s[j] == '.' && all_digits(s.subrange(0, i))
        && all_digits(s.subrange(i + 1, j)) && all_digits(s.subrange(j + 1, s.len() as int))
}

/// The whole acceptance condition for `Version::parse`: some pair of dot
/// positions gives the shape, and each of the three runs fits in a `u64`.
pub open spec fn parses_to(s: Seq<char>, v: Version) -> bool {
    exists|i: int, j: int|
        version_shape(s, i, j) && v.major == dec_val(s.subrange(0, i)) && v.minor == dec_val(
            s.subrange(i + 1, j),
        ) && v.patch == dec_val(s.subrange(j + 1, s.len() as int)) && dec_val(s.subrange(0, i))
            <= u64::MAX && dec_val(s.subrange(i + 1, j)) <= u64::MAX && dec_val(
            s.subrange(j + 1, s.len() as int),
        ) <= u64::MAX
}

/// Digits are never dots, so a well-shaped version string has dots exactly at
/// the two separator positions.
proof fn lemma_shape_dots(s: Seq<char>, i: int, j: int)
    requires
        version_shape(s, i, j),
    ensures
        forall|k: int| 0 <= k < s.len() ==> (s[k] == '.' <==> (k == i || k == j)),
{
    assert forall|k: int| 0 <= k < s.len() implies (s[k] == '.' <==> (k == i || k == j)) by {
        if k < i {
            assert(s.subrange(0, i)[k] == s[k]);
            assert(is_digit(s[k]));
        } else if i < k && k < j {
            assert(s.subrange(i + 1, j)[k - i - 1] == s[k]);
            assert(is_digit(s[k]));
        } else if j < k {
            assert(s.subrange(j + 1, s.len() as int)[k - j - 1] == s[k]);
            assert(is_digit(s[k]));
        }
    }
}

/// A longer digit string never has a smaller value than its prefix.
proof fn lemma_dec_val_prefix(s: Seq<char>, n: int)
    requires
        0 <= n <= s.len(),
    ensures
        dec_val(s) >= dec_val(s.take(n)),
    decreases s.len(),
{
    if n < s.len() {
        assert(s.drop_last().take(n) =~= s.take(n));
        lemma_dec_val_prefix(s.drop_last(), n);
        assert(dec_val(s) == dec_val(s.drop_last()) * 10 + digit_val(s.last()));
        assert(dec_val(s.drop_last()) * 10 >= dec_val(s.drop_last()));
    } else {
        assert(s.take(n) =~= s);
    }
}

/// True when the characters of `s` from `from` (inclusive) to `to` (exclusive)
/// form a non-empty digit run.
fn is_digit_run(s: &str, from: usize, to: usize) -> (r: bool)
    requires
        from <= to <= s@.len(),
    ensures
        r == all_digits(s@.subrange(from as int, to as int)),
{
    if from >= to {
        return false;
    }
    let mut k = from;
    while k < to
        invariant
            from <= k <= to <= s@.len(),
            forall|p: int| from <= p < k ==> is_digit(s@[p]),
        decreases to - k,
    {
        let c = s.get_char(k);
        if !('0' <= c && c <= '9') {
            assert(!is_digit(s@[k as int]));
            assert(s@.subrange(from as int, to as int)[k - from] == s@[k as int]);
            return false;
        }
        k = k + 1;
    }
    assert forall|q: int| 0 <= q < to - from implies is_digit(
        s@.subrange(from as int, to as int)[q],
    ) by {
        assert(s@.subrange(from as int, to as int)[q] == s@[from + q]);
    }
    true
}

/// Reads the value of a digit run, refusing one that does not fit in a `u64`.
fn parse_u64_digits(s: &str, from: usize, to: usize) -> (r: Option<u64>)
    requires
        from <= to <= s@.len(),
        all_digits(s@.subrange(from as int, to as int)),
    ensures
        match r {
            Some(v) => v == dec_val(s@.subrange(from as int, to as int)) && dec_val(
                s@.subrange(from as int, to as int),
            ) <= u64::MAX,
            None => dec_val(s@.subrange(from as int, to as int)) > u64::MAX,
        },
{
    let ghost whole = s@.subrange(from as int, to as int);
    let mut acc: u64 = 0;
    let mut k = from;
    while k < to
        invariant
            from <= k <= to <= s@.len(),
            all_digits(whole),
            whole == s@.subrange(from as int, to as int),
            acc == dec_val(s@.subrange(from as int, k as int)),
        decreases to - k,
    {
        let c = s.get_char(k);
        assert(whole[k - from] == s@[k as int]);
        assert(is_digit(s@[k as int]));
        let d: u64 = (c as u32 - 48) as u64;
        let wide: u128 = (acc as u128) * 10 + (d as u128);
        assert(s@.subrange(from as int, k + 1).drop_last() =~= s@.subrange(from as int, k as int));
        assert(s@.subrange(from as int, k + 1).last() == s@[k as int]);
        assert(wide == dec_val(s@.subrange(from as int, k + 1)));
        if wide > u64::MAX as u128 {
            proof {
                lemma_dec_val_prefix(whole, k + 1 - from);
                assert(whole.take(k + 1 - from) =~= s@.subrange(from as int, k + 1));
            }
            return None;
        }
        acc = wide as u64;
        k = k + 1;
    }
    assert(s@.subrange(from as int, to as int) =~= s@.subrange(from as int, k as int));
    Some(acc)
}

/// `s` has a pre-release or build separator (`-` or `+`), the first one at
/// `sep_ix(s)`.
pub open spec fn has_sep(s: Seq<char>) -> bool {
    exists|i: int|
        0 <= i < s.len() && (#[trigger] s[i] == '-' || s[i] == '+') && (forall|j: int|
            0 <= j < i ==> s[j] != '-' && s[j] != '+')
}

/// The first position of `-` or `+` in `s`.
pub open spec fn sep_ix(s: Seq<char>) -> int {
    choose|i: int|
        0 <= i < s.len() && (#[trigger] s[i] == '-' || s[i] == '+') && (forall|j: int|
            0 <= j < i ==> s[j] != '-' && s[j] != '+')
}

/// The numeric core of a version string: everything before the first `-` or
/// `+`, or the whole string if there is none.
pub open spec fn version_core(s: Seq<char>) -> Seq<char> {
    if has_sep(s) {
        s.take(sep_ix(s))
    } else {
        s
    }
}

impl Version {
    /// True when `self` is strictly older than `other`.
    pub fn is_older_than(&self, other: &Version) -> (r: bool)
        ensures
            r == version_lt(*self, *other),
    {
        self.major < other.major || (self.major == other.major && (self.minor < other.minor || (
        self.minor == other.minor && self.patch < other.patch)))
    }

    /// Parses a semantic version: the numeric `major.minor.patch` triple,
    /// with any pre-release or build suffix (after the first `-` or `+`)
    /// accepted and ignored; ordering compares the triple alone. The numeric
    /// core must be exactly three digit runs whose values fit in a `u64`.
    pub fn parse(s: &str) -> (r: Result<Version, InstallError>)
        ensures
            match r {
                Ok(v) => parses_to(version_core(s@), v),
                Err(e) => e is Format && forall|v: Version| !parses_to(version_core(s@), v),
            },
    {
        let n = s.unicode_len();
        let mut e0: usize = n;
        let mut i: usize = 0;
        while i < n && e0 == n
            invariant
                n == s@.len(),
                i <= n,
                e0 == n || (e0 < i && (s@[e0 as int] == '-' || s@[e0 as int] == '+')),
                forall|j: int| 0 <= j < i && j != e0 ==> s@[j] != '-' && s@[j] != '+',
            decreases n - i,
        {
            let c = s.get_char(i);
            if c == '-' || c == '+' {
                e0 = i;
            }
            i = i + 1;
        }
        proof {
            if e0 < n {
                assert(has_sep(s@));
                let ks = sep_ix(s@);
                if ks < e0 as int {
                    assert(s@[ks] == '-' || s@[ks] == '+');
                    assert(false);
                }
                if ks > e0 as int {
                    assert(false);
                }
            } else {
                if has_sep(s@) {
                    let ks = sep_ix(s@);
                    assert(s@[ks] == '-' || s@[ks] == '+');
                    assert(false);
                }
            }
        }
        let core = s.substring_char(0, e0);
        proof {
            assert(core@ =~= version_core(s@));
        }
        Self::parse_numeric(core)
    }

    /// Parses a plain `major.minor.patch` triple, rejecting any other shape
    /// and any component that does not fit in a `u64`.
    fn parse_numeric(s: &str) -> (r: Result<Version, InstallError>)
        ensures
            match r {
                Ok(v) => parses_to(s@, v),
                Err(e) => e is Format && forall|v: Version| !parses_to(s@, v),
            },
    {
        let len = s.unicode_len();
        let mut dots: Vec<usize> = Vec::new();
        let mut k: usize = 0;
        while k < len
            invariant
                len == s@.len(),
                k <= len,
                forall|a: int, b: int| 0 <= a < b < dots@.len() ==> dots@[a] < dots@[b],
                forall|a: int| 0 <= a < dots@.len() ==> dots@[a] < k && s@[dots@[a] as int] == '.',
                forall|p: int| 0 <= p < k && s@[p] == '.' ==> dots@.contains(p as usize),
            decreases len - k,
        {
            if s.get_char(k) == '.' {
                let ghost old_dots = dots@;
                dots.push(k);
                proof {
                    assert forall|p: int| 0 <= p < k + 1 && s@[p] == '.' implies dots@.contains(
                        p as usize,
                    ) by {
                        if p == k {
                            assert(dots@[dots@.len() - 1] == k as usize);
                        } else {
                            let a = choose|a: int|
                                0 <= a < old_dots.len() && old_dots[a] == p as usize;
                            assert(dots@[a] == p as usize);
                        }
                    }
                }
            }
            k = k + 1;
        }
        if dots.len() != 2 {
            proof {
                assert forall|v: Version| !parses_to(s@, v) by {
                    if parses_to(s@, v) {
                        let (i, j) = choose|i: int, j: int|
                            version_shape(s@, i, j) && v.major == dec_val(s@.subrange(0, i))
                                && v.minor == dec_val(s@.subrange(i + 1, j)) && v.patch == dec_val(
                                s@.subrange(j + 1, s@.len() as int),
                            ) && dec_val(s@.subrange(0, i)) <= u64::MAX && dec_val(
                                s@.subrange(i + 1, j),
                            ) <= u64::MAX && dec_val(s@.subrange(j + 1, s@.len() as int))
                                <= u64::MAX;
                        lemma_shape_dots(s@, i, j);
                        assert(dots@.contains(i as usize));
                        assert(dots@.contains(j as usize));
                        let ai = choose|a: int| 0 <= a < dots@.len() && dots@[a] == i as usize;
                        let aj = choose|a: int| 0 <= a < dots@.len() && dots@[a] == j as usize;
                        assert(ai != aj);
                        assert(dots@.len() >= 2);
                        if dots@.len() >= 3 {
                            assert(dots@[0] < dots@[1] && dots@[1] < dots@[2]);
                            assert(dots@[0] == i || dots@[0] == j);
                            assert(dots@[1] == i || dots@[1] == j);
                            assert(dots@[2] == i || dots@[2] == j);
                            assert(false);
                        }
                        assert(false);
                    }
                }
            }
            return Err(InstallError::Format { message: String::from_str("not a version string") });
        }
        let p1 = dots[0];
        let p2 = dots[1];
        let ok1 = is_digit_run(s, 0, p1);
        let ok2 = is_digit_run(s, p1 + 1, p2);
        let ok3 = is_digit_run(s, p2 + 1, len);
        proof {
            assert forall|i: int, j: int|
                version_shape(s@, i, j) implies i == p1 as int && j == p2 as int by {
                lemma_shape_dots(s@, i, j);
                assert(dots@.contains(i as usize));
                assert(dots@.contains(j as usize));
                let ai = choose|a: int| 0 <= a < dots@.len() && dots@[a] == i as usize;
                let aj = choose|a: int| 0 <= a < dots@.len() && dots@[a] == j as usize;
                assert(dots@[0] == p1 && dots@[1] == p2);
                assert(ai == 0 || ai == 1);
                assert(aj == 0 || aj == 1);
                assert(s@[p1 as int] == '.' && s@[p2 as int] == '.');
                assert(p1 == i || p1 == j);
            }
        }
        if !(ok1 && ok2 && ok3) {
            return Err(InstallError::Format { message: String::from_str("not a version string") });
        }
        assert(version_shape(s@, p1 as int, p2 as int));
        let major = parse_u64_digits(s, 0, p1);
        let minor = parse_u64_digits(s, p1 + 1, p2);
        let patch = parse_u64_digits(s, p2 + 1, len);
        match (major, minor, patch) {
            (Some(a), Some(b), Some(c)) => {
                let v = Version { major: a, minor: b, patch: c };
                assert(parses_to(s@, v)) by {
                    assert(version_shape(s@, p1 as int, p2 as int) && v.major == dec_val(
                        s@.subrange(0, p1 as int),
                    ) && v.minor == dec_val(s@.subrange(p1 + 1, p2 as int)) && v.patch == dec_val(
                        s@.subrange(p2 + 1, s@.len() as int),
                    ) && dec_val(s@.subrange(0, p1 as int)) <= u64::MAX && dec_val(
                        s@.subrange(p1 + 1, p2 as int),
                    ) <= u64::MAX && dec_val(s@.subrange(p2 + 1, s@.len() as int)) <= u64::MAX);
                }
                Ok(v)
            },
            _ => {
                Err(InstallError::Format { message: String::from_str("version out of range") })
            },
        }
    }

    /// Renders the version as `major.minor.patch`.
    pub fn render(&self) -> (s: String)
        ensures
            s@ == spec_render_version(*self),
    {
        let mut s = u64_to_dec(self.major);
        s.append(".");
        let minor = u64_to_dec(self.minor);
        s.append(minor.as_str());
        s.append(".");
        let patch = u64_to_dec(self.patch);
        s.append(patch.as_str());
        proof {
            reveal_strlit(".");
        }
        assert(s@ =~= spec_render_version(*self));
        s
    }
}

} // verus!
