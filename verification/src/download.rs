//! The compute side of the download engine: destination-name derivation from
//! response metadata, HTTP status policy, and the per-download tracker that
//! hashes and counts the exact bytes written.

use vstd::prelude::*;
use vstd::string::StrSliceExecFns;

use crate::config::is_space;
use crate::error::InstallError;
use crate::hashing::{hex_rep, sha1_digest, StreamHasher};
use crate::text::push_char;

verus! {

/// Byte-level progress of one transfer. The total is unknown when the server
/// sent no length header; no completion fraction can be computed then.
#[derive(Clone, Copy, Debug)]
pub struct DownloadProgress {
    pub received_bytes: u64,
    pub total_bytes: Option<u64>,
}

/// What a finished download hands back: where the file landed and the
/// lower-case hex content hash of the exact bytes written.
#[derive(Clone, Debug)]
pub struct DownloadOutcome {
    pub path: String,
    pub hash: String,
}

/// Copies the characters of `s` in positions `a..b` into a fresh string.
fn copy_range(s: &str, a: usize, b: usize) -> (r: String)
    requires
        a <= b <= s@.len(),
    ensures
        r@ == s@.subrange(a as int, b as int),
{
    let mut r = String::new();
    let mut i = a;
    while i < b
        invariant
            a <= i <= b <= s@.len(),
            r@ == s@.subrange(a as int, i as int),
        decreases b - i,
    {
        let c = s.get_char(i);
        push_char(&mut r, c);
        proof {
            assert(s@.subrange(a as int, i + 1) =~= s@.subrange(a as int, i as int) + seq![
                s@[i as int],
            ]);
        }
        i = i + 1;
    }
    r
}

/// `s` trimmed of leading and trailing whitespace.
pub open spec fn spec_trim_spaces(s: Seq<char>) -> Seq<char>
    decreases s.len(),
{
    if s.len() > 0 && is_space(s.first()) {
        spec_trim_spaces(s.drop_first())
    } else if s.len() > 0 && is_space(s.last()) {
        spec_trim_spaces(s.drop_last())
    } else {
        s
    }
}

/// `s` trimmed of leading and trailing double quotes.
pub open spec fn spec_strip_quotes(s: Seq<char>) -> Seq<char>
    decreases s.len(),
{
    if s.len() > 0 && s.first() == '"' {
        spec_strip_quotes(s.drop_first())
    } else if s.len() > 0 && s.last() == '"' {
        spec_strip_quotes(s.drop_last())
    } else {
        s
    }
}

/// Decides `is_space` for one character.
fn space_char(c: char) -> (r: bool)
    ensures
        r == is_space(c),
{
    c == ' ' || c == '\t' || c == '\n' || c == '\r'
}

/// Narrows `a..b` to the whitespace-trimmed core of that range.
fn trim_range(s: &str, a: usize, b: usize) -> (r: (usize, usize))
    requires
        a <= b <= s@.len(),
    ensures
        a <= r.0 <= r.1 <= b,
        s@.subrange(r.0 as int, r.1 as int) == spec_trim_spaces(s@.subrange(a as int, b as int)),
{
    let mut lo = a;
    let mut hi = b;
    while lo < hi && space_char(s.get_char(lo))
        invariant
            a <= lo <= hi <= b <= s@.len(),
            hi == b,
            spec_trim_spaces(s@.subrange(a as int, b as int)) == spec_trim_spaces(
                s@.subrange(lo as int, hi as int),
            ),
        decreases hi - lo,
    {
        proof {
            let cur = s@.subrange(lo as int, hi as int);
            assert(cur.first() == s@[lo as int]);
            assert(cur.drop_first() =~= s@.subrange(lo + 1, hi as int));
        }
        lo = lo + 1;
    }
    while lo < hi && space_char(s.get_char(hi - 1))
        invariant
            a <= lo <= hi <= b <= s@.len(),
            lo < hi ==> !is_space(s@[lo as int]),
            spec_trim_spaces(s@.subrange(a as int, b as int)) == spec_trim_spaces(
                s@.subrange(lo as int, hi as int),
            ),
        decreases hi,
    {
        proof {
            let cur = s@.subrange(lo as int, hi as int);
            assert(cur.first() == s@[lo as int]);
            assert(cur.last() == s@[hi - 1]);
            assert(cur.drop_last() =~= s@.subrange(lo as int, hi - 1));
        }
        hi = hi - 1;
    }
    proof {
        let cur = s@.subrange(lo as int, hi as int);
        if cur.len() > 0 {
            assert(cur.first() == s@[lo as int]);
            assert(cur.last() == s@[hi - 1]);
        }
        assert(spec_trim_spaces(cur) == cur);
    }
    (lo, hi)
}

/// Narrows `a..b` to the quote-stripped core of that range.
fn strip_quotes_range(s: &str, a: usize, b: usize) -> (r: (usize, usize))
    requires
        a <= b <= s@.len(),
    ensures
        a <= r.0 <= r.1 <= b,
        s@.subrange(r.0 as int, r.1 as int) == spec_strip_quotes(s@.subrange(a as int, b as int)),
{
    let mut lo = a;
    let mut hi = b;
    while lo < hi && s.get_char(lo) == '"'
        invariant
            a <= lo <= hi <= b <= s@.len(),
            hi == b,
            spec_strip_quotes(s@.subrange(a as int, b as int)) == spec_strip_quotes(
                s@.subrange(lo as int, hi as int),
            ),
        decreases hi - lo,
    {
        proof {
            let cur = s@.subrange(lo as int, hi as int);
            assert(cur.first() == s@[lo as int]);
            assert(cur.drop_first() =~= s@.subrange(lo + 1, hi as int));
        }
        lo = lo + 1;
    }
    while lo < hi && s.get_char(hi - 1) == '"'
        invariant
            a <= lo <= hi <= b <= s@.len(),
            lo < hi ==> s@[lo as int] != '"',
            spec_strip_quotes(s@.subrange(a as int, b as int)) == spec_strip_quotes(
                s@.subrange(lo as int, hi as int),
            ),
        decreases hi,
    {
        proof {
            let cur = s@.subrange(lo as int, hi as int);
            assert(cur.first() == s@[lo as int]);
            assert(cur.last() == s@[hi - 1]);
            assert(cur.drop_last() =~= s@.subrange(lo as int, hi - 1));
        }
        hi = hi - 1;
    }
    proof {
        let cur = s@.subrange(lo as int, hi as int);
        if cur.len() > 0 {
            assert(cur.first() == s@[lo as int]);
            assert(cur.last() == s@[hi - 1]);
        }
        assert(spec_strip_quotes(cur) == cur);
    }
    (lo, hi)
}

/// The first position of `c` in `s` at or after `from` and before `to`.
fn find_char(s: &str, from: usize, to: usize, c: char) -> (r: Option<usize>)
    requires
        from <= to <= s@.len(),
    ensures
        match r {
            Some(k) => from <= k < to && s@[k as int] == c && forall|j: int|
                from <= j < k ==> s@[j] != c,
            None => forall|j: int| from <= j < to ==> s@[j] != c,
        },
{
    let mut i = from;
    while i < to
        invariant
            from <= i <= to <= s@.len(),
            forall|j: int| from <= j < i ==> s@[j] != c,
        decreases to - i,
    {
        if s.get_char(i) == c {
            return Some(i);
        }
        i = i + 1;
    }
    None
}

/// The last position of `c` in `s` at or after `from` and before `to`.
fn rfind_char(s: &str, from: usize, to: usize, c: char) -> (r: Option<usize>)
    requires
        from <= to <= s@.len(),
    ensures
        match r {
            Some(k) => from <= k < to && s@[k as int] == c && forall|j: int|
                k < j < to ==> s@[j] != c,
            None => forall|j: int| from <= j < to ==> s@[j] != c,
        },
{
    let mut i = to;
    while i > from
        invariant
            from <= i <= to <= s@.len(),
            forall|j: int| i <= j < to ==> s@[j] != c,
        decreases i,
    {
        i = i - 1;
        if s.get_char(i) == c {
            return Some(i);
        }
    }
    None
}

/// `s` has an occurrence of `c`, the first one being at `first_ix(s, c)`.
pub open spec fn has_first(s: Seq<char>, c: char) -> bool {
    exists|i: int|
        0 <= i < s.len() && s[i] == c && (forall|j: int| 0 <= j < i ==> s[j] != c)
}

/// The first position of `c` in `s`.
pub open spec fn first_ix(s: Seq<char>, c: char) -> int {
    choose|i: int| 0 <= i < s.len() && s[i] == c && (forall|j: int| 0 <= j < i ==> s[j] != c)
}

/// What one `;`-separated part of a `Content-Disposition` header contributes:
/// the part is trimmed; if it reads `filename=<value>`, the value is stripped
/// of quotes and trimmed; a non-empty result names the file.
pub open spec fn spec_part_name(p: Seq<char>) -> Option<Seq<char>> {
    let t = spec_trim_spaces(p);
    if t.len() >= 9 && t.take(9) == "filename="@ {
        let v = spec_trim_spaces(spec_strip_quotes(t.skip(9)));
        if v.len() > 0 {
            Some(v)
        } else {
            None
        }
    } else {
        None
    }
}

/// The file name a `Content-Disposition` header value yields: the first
/// `;`-separated part with a usable `filename=` attribute.
pub open spec fn spec_disp_name(h: Seq<char>) -> Option<Seq<char>>
    decreases h.len(),
{
    if has_first(h, ';') {
        let k = first_ix(h, ';');
        match spec_part_name(h.take(k)) {
            Some(v) => Some(v),
            None => spec_disp_name(h.skip(k + 1)),
        }
    } else {
        spec_part_name(h)
    }
}

/// `s` has a `://` scheme separator, the first one starting at
/// `scheme_sep_ix(s)`.
pub open spec fn has_scheme_sep(s: Seq<char>) -> bool {
    exists|i: int|
        0 <= i && i + 2 < s.len() && #[trigger] s[i] == ':' && s[i + 1] == '/' && s[i + 2] == '/' && (
        forall|j: int|
            0 <= j < i ==> !(j + 2 < s.len() && #[trigger] s[j] == ':' && s[j + 1] == '/' && s[j
                + 2] == '/'))
}

/// The position of the first `://` in `s`.
pub open spec fn scheme_sep_ix(s: Seq<char>) -> int {
    choose|i: int|
        0 <= i && i + 2 < s.len() && #[trigger] s[i] == ':' && s[i + 1] == '/' && s[i + 2] == '/' && (
        forall|j: int|
            0 <= j < i ==> !(j + 2 < s.len() && #[trigger] s[j] == ':' && s[j + 1] == '/' && s[j
                + 2] == '/'))
}

/// `s` contains a `/`, the last one being at `last_slash_ix(s)`.
pub open spec fn has_last_slash(s: Seq<char>) -> bool {
    exists|i: int|
        0 <= i < s.len() && s[i] == '/' && (forall|j: int| i < j < s.len() ==> s[j] != '/')
}

/// The last position of `/` in `s`.
pub open spec fn last_slash_ix(s: Seq<char>) -> int {
    choose|i: int|
        0 <= i < s.len() && s[i] == '/' && (forall|j: int| i < j < s.len() ==> s[j] != '/')
}

/// The last non-empty `/`-separated segment of a host-and-path string:
/// trailing slashes are ignored, and a string with no slash at all has no
/// path, hence no segment.
pub open spec fn last_nonempty_segment(s: Seq<char>) -> Option<Seq<char>>
    decreases s.len(),
{
    if s.len() == 0 {
        None
    } else if s.last() == '/' {
        last_nonempty_segment(s.drop_last())
    } else if has_last_slash(s) {
        Some(s.skip(last_slash_ix(s) + 1))
    } else {
        None
    }
}

/// The file name the final URL yields: fragment and query are cut, a scheme
/// separator is required, and the last non-empty path segment names the file.
pub open spec fn spec_url_name(u: Seq<char>) -> Option<Seq<char>> {
    let nf = if has_first(u, '#') {
        u.take(first_ix(u, '#'))
    } else {
        u
    };
    let nq = if has_first(nf, '?') {
        nf.take(first_ix(nf, '?'))
    } else {
        nf
    };
    if has_scheme_sep(nq) {
        last_nonempty_segment(nq.skip(scheme_sep_ix(nq) + 3))
    } else {
        None
    }
}

/// The destination file name of a download: the `Content-Disposition` header
/// is consulted first, the final URL second.
pub open spec fn spec_dest_name(disp: Option<Seq<char>>, url: Seq<char>) -> Option<Seq<char>> {
    match disp {
        Some(h) => match spec_disp_name(h) {
            Some(v) => Some(v),
            None => spec_url_name(url),
        },
        None => spec_url_name(url),
    }
}

/// The view of an optional header value.
pub open spec fn opt_view(o: Option<&str>) -> Option<Seq<char>> {
    match o {
        Some(h) => Some(h@),
        None => None,
    }
}

/// Evaluates `spec_part_name` on the characters of `s` in `a..b`.
fn part_name_range(s: &str, a: usize, b: usize) -> (r: Option<String>)
    requires
        a <= b <= s@.len(),
    ensures
        match r {
            Some(v) => spec_part_name(s@.subrange(a as int, b as int)) == Some(v@),
            None => spec_part_name(s@.subrange(a as int, b as int)) is None,
        },
{
    let ghost t = spec_trim_spaces(s@.subrange(a as int, b as int));
    let (ta, tb) = trim_range(s, a, b);
    if tb - ta < 9 {
        return None;
    }
    proof {
        reveal_strlit("filename=");
    }
    let lit = "filename=";
    let mut j: usize = 0;
    while j < 9
        invariant
            j <= 9,
            a <= ta,
            a <= b <= s@.len(),
            ta + 9 <= tb <= b,
            lit@ == "filename="@,
            lit@.len() == 9,
            t == spec_trim_spaces(s@.subrange(a as int, b as int)),
            t == s@.subrange(ta as int, tb as int),
            forall|q: int| 0 <= q < j ==> s@[ta + q] == lit@[q],
        decreases 9 - j,
    {
        if s.get_char(ta + j) != lit.get_char(j) {
            proof {
                assert(t.take(9)[j as int] == s@[ta + j]);
                assert(t.take(9) != "filename="@);
            }
            return None;
        }
        j = j + 1;
    }
    proof {
        assert forall|q: int| 0 <= q < 9 implies t.take(9)[q] == "filename="@[q] by {
            assert(t.take(9)[q] == s@[ta + q]);
        }
        assert(t.take(9) =~= "filename="@);
        assert(t.skip(9) =~= s@.subrange(ta + 9, tb as int));
    }
    let (qa, qb) = strip_quotes_range(s, ta + 9, tb);
    let (va, vb) = trim_range(s, qa, qb);
    if va < vb {
        Some(copy_range(s, va, vb))
    } else {
        None
    }
}

/// Derives a file name from a `Content-Disposition` header value, taking the
/// first `;`-separated part whose `filename=` attribute yields a non-empty
/// name.
pub fn disposition_file_name(h: &str) -> (r: Option<String>)
    ensures
        match r {
            Some(v) => spec_disp_name(h@) == Some(v@),
            None => spec_disp_name(h@) is None,
        },
    decreases h@.len(),
{
    let n = h.unicode_len();
    match find_char(h, 0, n, ';') {
        Some(k) => {
            proof {
                assert(has_first(h@, ';'));
                let ks = first_ix(h@, ';');
                if ks < k as int {
                    assert(h@[ks] == ';');
                    assert(false);
                }
                if ks > k as int {
                    assert(h@[k as int] == ';');
                    assert(false);
                }
                assert(h@.take(k as int) =~= h@.subrange(0, k as int));
            }
            match part_name_range(h, 0, k) {
                Some(v) => Some(v),
                None => {
                    let rest = h.substring_char(k + 1, n);
                    proof {
                        assert(rest@ =~= h@.skip(k + 1));
                    }
                    disposition_file_name(rest)
                },
            }
        },
        None => {
            proof {
                if has_first(h@, ';') {
                    let ks = first_ix(h@, ';');
                    assert(h@[ks] == ';');
                    assert(false);
                }
                assert(h@.subrange(0, n as int) =~= h@);
            }
            part_name_range(h, 0, n)
        },
    }
}

/// The start of the first `://` before `to`, if any.
fn find_scheme_sep(s: &str, to: usize) -> (r: Option<usize>)
    requires
        to <= s@.len(),
    ensures
        match r {
            Some(k) => 0 <= k && k + 2 < to && s@[k as int] == ':' && s@[k + 1] == '/' && s@[k + 2]
                == '/' && (forall|j: int|
                0 <= j < k ==> !(j + 2 < to && #[trigger] s@[j] == ':' && s@[j + 1] == '/' && s@[j
                    + 2] == '/')),
            None => forall|j: int|
                0 <= j ==> !(j + 2 < to && #[trigger] s@[j] == ':' && s@[j + 1] == '/' && s@[j + 2]
                    == '/'),
        },
{
    if to < 3 {
        return None;
    }
    let mut i: usize = 0;
    while i < to - 2
        invariant
            3 <= to <= s@.len(),
            i <= to - 2,
            forall|j: int|
                0 <= j < i ==> !(j + 2 < to && #[trigger] s@[j] == ':' && s@[j + 1] == '/' && s@[j
                    + 2] == '/'),
        decreases to - i,
    {
        if s.get_char(i) == ':' && s.get_char(i + 1) == '/' && s.get_char(i + 2) == '/' {
            return Some(i);
        }
        i = i + 1;
    }
    None
}

/// Derives a file name from the final URL, as `spec_url_name` describes.
#[verifier::rlimit(100)]
pub fn url_file_name(u: &str) -> (r: Option<String>)
    ensures
        match r {
            Some(v) => spec_url_name(u@) == Some(v@),
            None => spec_url_name(u@) is None,
        },
{
    let n = u.unicode_len();
    let h_end = match find_char(u, 0, n, '#') {
        Some(k) => {
            proof {
                assert(has_first(u@, '#'));
                let ks = first_ix(u@, '#');
                if ks < k as int {
                    assert(u@[ks] == '#');
                    assert(false);
                }
                if ks > k as int {
                    assert(u@[k as int] == '#');
                    assert(false);
                }
            }
            k
        },
        None => {
            proof {
                if has_first(u@, '#') {
                    let ks = first_ix(u@, '#');
                    assert(u@[ks] == '#');
                    assert(false);
                }
            }
            n
        },
    };
    let ghost nf = if has_first(u@, '#') {
        u@.take(first_ix(u@, '#'))
    } else {
        u@
    };
    proof {
        assert(nf =~= u@.subrange(0, h_end as int));
    }
    let q_end = match find_char(u, 0, h_end, '?') {
        Some(k) => {
            proof {
                assert(nf[k as int] == u@[k as int]);
                assert(has_first(nf, '?'));
                let ks = first_ix(nf, '?');
                if ks < k as int {
                    assert(nf[ks] == '?' && nf[ks] == u@[ks]);
                    assert(false);
                }
                if ks > k as int {
                    assert(nf[k as int] == '?');
                    assert(false);
                }
            }
            k
        },
        None => {
            proof {
                if has_first(nf, '?') {
                    let ks = first_ix(nf, '?');
                    assert(nf[ks] == '?' && nf[ks] == u@[ks]);
                    assert(false);
                }
            }
            h_end
        },
    };
    let ghost nq = if has_first(nf, '?') {
        nf.take(first_ix(nf, '?'))
    } else {
        nf
    };
    proof {
        assert(nq =~= u@.subrange(0, q_end as int));
    }
    let sep = find_scheme_sep(u, q_end);
    proof {
        assert(forall|x: int| 0 <= x < q_end ==> nq[x] == u@[x]);
        assert(nq.len() == q_end);
    }
    match sep {
        None => {
            proof {
                if has_scheme_sep(nq) {
                    let ks = scheme_sep_ix(nq);
                    assert(nq[ks] == ':' && nq[ks + 1] == '/' && nq[ks + 2] == '/');
                    assert(false);
                }
            }
            None
        },
        Some(p) => {
            proof {
                assert forall|j: int|
                    0 <= j < p as int implies !(j + 2 < nq.len() && #[trigger] nq[j] == ':'
                    && nq[j + 1] == '/' && nq[j + 2] == '/') by {
                    if j + 2 < nq.len() && nq[j] == ':' && nq[j + 1] == '/' && nq[j + 2] == '/' {
                        assert(u@[j] == ':' && u@[j + 1] == '/' && u@[j + 2] == '/');
                        assert(false);
                    }
                }
                assert(nq[p as int] == ':' && nq[p as int + 1] == '/' && nq[p as int + 2] == '/');
                assert(has_scheme_sep(nq));
                let ks = scheme_sep_ix(nq);
                if ks < p as int {
                    assert(nq[ks] == ':');
                    assert(false);
                }
                if ks > p as int {
                    assert(false);
                }
            }
            let start = p + 3;
            let mut b = q_end;
            proof {
                assert(nq.skip(start as int) =~= u@.subrange(start as int, q_end as int));
            }
            while b > start && u.get_char(b - 1) == '/'
                invariant
                    start <= b <= q_end <= u@.len(),
                    start == p + 3,
                    nq =~= u@.subrange(0, q_end as int),
                    last_nonempty_segment(nq.skip(start as int)) == last_nonempty_segment(
                        u@.subrange(start as int, b as int),
                    ),
                decreases b,
            {
                proof {
                    let cur = u@.subrange(start as int, b as int);
                    assert(cur.last() == u@[b - 1]);
                    assert(cur.drop_last() =~= u@.subrange(start as int, b - 1));
                }
                b = b - 1;
            }
            if b == start {
                proof {
                    assert(u@.subrange(start as int, b as int).len() == 0);
                }
                return None;
            }
            let ghost t = u@.subrange(start as int, b as int);
            proof {
                assert(t.last() == u@[b - 1]);
                assert(t.last() != '/');
            }
            match rfind_char(u, start, b, '/') {
                Some(ls) => {
                    proof {
                        assert(t[ls - start] == u@[ls as int]);
                        assert forall|j: int| ls - start < j < t.len() implies t[j] != '/' by {
                            assert(t[j] == u@[start + j]);
                        }
                        assert(has_last_slash(t));
                        let ks = last_slash_ix(t);
                        if ks < ls - start {
                            assert(t[ls - start] == '/');
                            assert(false);
                        }
                        if ks > ls - start {
                            assert(t[ks] == '/' && t[ks] == u@[start + ks]);
                            assert(false);
                        }
                        assert(t.skip(ks + 1) =~= u@.subrange(ls + 1, b as int));
                    }
                    Some(copy_range(u, ls + 1, b))
                },
                None => {
                    proof {
                        if has_last_slash(t) {
                            let ks = last_slash_ix(t);
                            assert(t[ks] == '/' && t[ks] == u@[start + ks]);
                            assert(false);
                        }
                    }
                    None
                },
            }
        },
    }
}

/// Derives the destination file name for a download, in order: a `filename=`
/// attribute of the `Content-Disposition` response header, then the last
/// non-empty path segment of the final URL with any query string stripped.
pub fn extract_file_name(content_disposition: Option<&str>, final_url: &str) -> (r: Result<
    String,
    InstallError,
>)
    ensures
        r matches Ok(name) ==> spec_dest_name(opt_view(content_disposition), final_url@) == Some(
            name@,
        ),
        r is Ok <==> spec_dest_name(opt_view(content_disposition), final_url@) is Some,
        r is Err ==> r->Err_0 is NameResolution,
{
    let from_header = match content_disposition {
        Some(h) => disposition_file_name(h),
        None => None,
    };
    match from_header {
        Some(v) => Ok(v),
        None => match url_file_name(final_url) {
            Some(v) => Ok(v),
            None => Err(InstallError::NameResolution),
        },
    }
}

/// The diagnostic snippet kept from a failed response's body: at most 512
/// characters, with a placeholder when nothing could be read.
pub open spec fn spec_snippet(b: Seq<char>) -> Seq<char> {
    if b.len() == 0 {
        "<failed to read body>"@
    } else if b.len() > 512 {
        b.take(512)
    } else {
        b
    }
}

/// Builds the diagnostic snippet of a response body.
pub fn make_snippet(body: &str) -> (r: String)
    ensures
        r@ == spec_snippet(body@),
{
    let n = body.unicode_len();
    if n == 0 {
        String::from_str("<failed to read body>")
    } else if n > 512 {
        copy_range(body, 0, 512)
    } else {
        let r = String::from_str(body);
        r
    }
}

/// Accepts exactly the 2xx statuses; anything else fails with the status and
/// a truncated body snippet.
pub fn ensure_success(status: u16, body: &str) -> (r: Result<(), InstallError>)
    ensures
        r is Ok <==> 200 <= status < 300,
        r is Err ==> (match r->Err_0 {
            InstallError::Http { status: st, snippet } => st == status && snippet@ == spec_snippet(
                body@,
            ),
            _ => false,
        }),
{
    if 200 <= status && status < 300 {
        Ok(())
    } else {
        Err(InstallError::Http { status, snippet: make_snippet(body) })
    }
}

/// Tracks one in-flight download: the content digest and received-byte count
/// over the exact bytes written, plus the server's length hint.
pub struct DownloadTracker {
    hasher: StreamHasher,
    received: u64,
    total: Option<u64>,
}

impl DownloadTracker {
    /// The bytes fed so far.
    pub closed spec fn bytes(self) -> Seq<u8> {
        self.hasher.bytes()
    }

    /// The received-byte counter.
    pub closed spec fn received_count(self) -> u64 {
        self.received
    }

    /// The server's length hint, if any.
    pub closed spec fn total_hint(self) -> Option<u64> {
        self.total
    }

    /// The counter counts exactly the bytes fed.
    pub open spec fn wf(self) -> bool {
        self.received_count() as nat == self.bytes().len()
    }

    /// A fresh tracker for a transfer with the given length hint.
    pub fn new(total_bytes: Option<u64>) -> (r: DownloadTracker)
        ensures
            r.wf(),
            r.bytes() == Seq::<u8>::empty(),
            r.received_count() == 0,
            r.total_hint() == total_bytes,
    {
        DownloadTracker { hasher: StreamHasher::new(), received: 0, total: total_bytes }
    }

    /// Feeds one chunk: the digest and the counter advance together.
    pub fn update(&mut self, chunk: &[u8])
        requires
            old(self).wf(),
            old(self).received_count() + chunk@.len() <= u64::MAX,
        ensures
            final(self).wf(),
            final(self).bytes() == old(self).bytes() + chunk@,
            final(self).received_count() == old(self).received_count() + chunk@.len(),
            final(self).total_hint() == old(self).total_hint(),
    {
        self.hasher.update(chunk);
        self.received = self.received + chunk.len() as u64;
    }

    /// The progress value to report after the latest chunk.
    pub fn progress(&self) -> (p: DownloadProgress)
        ensures
            p.received_bytes == self.received_count(),
            p.total_bytes == self.total_hint(),
    {
        DownloadProgress { received_bytes: self.received, total_bytes: self.total }
    }

    /// Finishes the transfer: the lower-case hex content hash of the exact
    /// bytes fed.
    pub fn finalize(self) -> (h: String)
        ensures
            h@ == hex_rep(sha1_digest(self.bytes())),
    {
        let digest = self.hasher.finalize();
        crate::hashing::hex_encode(digest.as_slice())
    }
}

} // verus!
