//! Character-level text utilities with exact specifications.
use vstd::prelude::*;

verus! {

/// Appends one character to a `String` (std's `String::push`).
#[verifier::external_body]
pub(crate) fn push_char(s: &mut String, c: char)
    ensures
        final(s)@ == old(s)@.push(c),
{
    s.push(c);
}

/// An owned copy of `s`.
pub fn owned(s: &str) -> (r: String)
    ensures
        r@ == s@,
{
    s.to_owned()
}

/// The characters of `s`, in order.
pub fn chars_of(s: &str) -> (v: Vec<char>)
    ensures
        v@ == s@,
{
    broadcast use vstd::string::group_string_axioms;
    let mut v: Vec<char> = Vec::new();
    for c in it: s.chars()
        invariant
            v@ == it.seq().take(it.index()),
    {
        v.push(c);
    }
    v
}

/// The string made of the characters `v`.
pub fn string_of(v: &[char]) -> (s: String)
    ensures
        s@ == v@,
{
    let mut s = String::new();
    let n: usize = v.len();
    for i in 0..n
        invariant
            n == v@.len(),
            s@ == v@.take(i as int),
    {
        push_char(&mut s, v[i]);
        assert(v@.take(i + 1) == v@.take(i as int).push(v@[i as int]));
    }
    assert(v@.take(n as int) == v@);
    s
}


/// `p` occurs in `s` starting at index `i`.
pub open spec fn occurs_at(s: Seq<char>, p: Seq<char>, i: int) -> bool {
    0 <= i && i + p.len() <= s.len() && s.subrange(i, i + p.len()) == p
}

/// `p` occurs somewhere in `s`.
pub open spec fn contains_seq(s: Seq<char>, p: Seq<char>) -> bool {
    exists|i: int| occurs_at(s, p, i)
}

/// Every occurrence of `pat` in `s`, taken from left to right without overlap,
/// replaced by `rep`. An empty `pat` occurs before every character and at the end.
pub open spec fn replace_spec(s: Seq<char>, pat: Seq<char>, rep: Seq<char>) -> Seq<char>
    decreases s.len(),
{
    if pat.len() == 0 {
        if s.len() == 0 {
            rep
        } else {
            rep + seq![s[0]] + replace_spec(s.skip(1), pat, rep)
        }
    } else if s.len() == 0 {
        s
    } else if pat.is_prefix_of(s) {
        rep + replace_spec(s.skip(pat.len() as int), pat, rep)
    } else {
        seq![s[0]] + replace_spec(s.skip(1), pat, rep)
    }
}

/// Whether `p` occurs in `s` at index `i`.
pub fn matches_at(s: &[char], i: usize, p: &[char]) -> (b: bool)
    ensures
        b == occurs_at(s@, p@, i as int),
{
    if i > s.len() || p.len() > s.len() - i {
        return false;
    }
    let m: usize = p.len();
    for k in 0..m
        invariant
            m == p@.len(),
            i + m <= s.len(),
            forall|j: int| 0 <= j < k ==> s@[i + j] == p@[j],
    {
        if s[i + k] != p[k] {
            assert(s@.subrange(i as int, i + m)[k as int] != p@[k as int]);
            return false;
        }
    }
    assert(s@.subrange(i as int, i + m) =~= p@);
    true
}

/// Appends the characters of `extra` to `out`.
pub fn extend_chars(out: &mut Vec<char>, extra: &[char])
    ensures
        final(out)@ == old(out)@ + extra@,
{
    out.extend_from_slice(extra);
}

/// `s` with every occurrence of `pat` replaced by `rep`, as `str::replace` does.
pub fn replace_chars(s: &[char], pat: &[char], rep: &[char]) -> (r: Vec<char>)
    ensures
        r@ == replace_spec(s@, pat@, rep@),
{
    let mut out: Vec<char> = Vec::new();
    let n: usize = s.len();
    let mut i: usize = 0;
    assert(s@.skip(0) =~= s@);
    if pat.len() == 0 {
        while i < n
            invariant
                n == s@.len(),
                i <= n,
                pat@.len() == 0,
                out@ + replace_spec(s@.skip(i as int), pat@, rep@) == replace_spec(s@, pat@, rep@),
            decreases n - i,
        {
            let ghost before = out@;
            assert(s@.skip(i as int).skip(1) =~= s@.skip(i + 1));
            extend_chars(&mut out, rep);
            out.push(s[i]);
            i = i + 1;
            assert(before + (rep@ + seq![s@[i - 1]] + replace_spec(s@.skip(i as int), pat@, rep@))
                =~= out@ + replace_spec(s@.skip(i as int), pat@, rep@));
        }
        assert(s@.skip(n as int) =~= Seq::<char>::empty());
        let ghost before = out@;
        extend_chars(&mut out, rep);
        assert(out@ == replace_spec(s@, pat@, rep@));
        return out;
    } else {
        while i < n
            invariant
                n == s@.len(),
                i <= n,
                pat@.len() > 0,
                out@ + replace_spec(s@.skip(i as int), pat@, rep@) == replace_spec(s@, pat@, rep@),
            decreases n - i,
        {
            let ghost before = out@;
            let ghost rest = s@.skip(i as int);
            if matches_at(s, i, pat) {
                assert(pat@.is_prefix_of(rest)) by {
                    assert(rest.subrange(0, pat@.len() as int) =~= s@.subrange(i as int, i + pat@.len()));
                }
                assert(rest.skip(pat@.len() as int) =~= s@.skip(i + pat@.len()));
                extend_chars(&mut out, rep);
                i = i + pat.len();
                assert(before + (rep@ + replace_spec(s@.skip(i as int), pat@, rep@))
                    =~= out@ + replace_spec(s@.skip(i as int), pat@, rep@));
            } else {
                assert(!pat@.is_prefix_of(rest)) by {
                    if pat@.is_prefix_of(rest) {
                        assert(rest.subrange(0, pat@.len() as int) =~= s@.subrange(i as int, i + pat@.len()));
                    }
                }
                assert(rest.skip(1) =~= s@.skip(i + 1));
                out.push(s[i]);
                i = i + 1;
                assert(before + (seq![s@[i - 1]] + replace_spec(s@.skip(i as int), pat@, rep@))
                    =~= out@ + replace_spec(s@.skip(i as int), pat@, rep@));
            }
        }
        assert(s@.skip(n as int).len() == 0);
    }
    assert(out@ + replace_spec(s@.skip(n as int), pat@, rep@) =~= out@);
    out
}

/// Replacing a non-empty pattern that does not occur in `s` leaves `s` as it is.
pub proof fn law_replace_without_occurrence(s: Seq<char>, pat: Seq<char>, rep: Seq<char>)
    requires
        pat.len() > 0,
        !contains_seq(s, pat),
    ensures
        replace_spec(s, pat, rep) == s,
    decreases s.len(),
{
    if s.len() > 0 {
        if pat.is_prefix_of(s) {
            assert(s.subrange(0, pat.len() as int) =~= pat);
            assert(occurs_at(s, pat, 0));
        }
        assert forall|i: int| !occurs_at(s.skip(1), pat, i) by {
            if occurs_at(s.skip(1), pat, i) {
                assert(s.subrange(i + 1, i + 1 + pat.len()) =~= s.skip(1).subrange(i, i + pat.len()));
                assert(occurs_at(s, pat, i + 1));
            }
        }
        law_replace_without_occurrence(s.skip(1), pat, rep);
        assert(seq![s[0]] + s.skip(1) =~= s);
    }
}

/// Whether `p` is a prefix of `s`.
pub fn starts_with_chars(s: &[char], p: &[char]) -> (b: bool)
    ensures
        b == p@.is_prefix_of(s@),
{
    let b = matches_at(s, 0, p);
    proof {
        if b {
            assert(s@.subrange(0, p@.len() as int) =~= p@);
        } else if p@.is_prefix_of(s@) {
            assert(s@.subrange(0, p@.len() as int) =~= p@);
        }
    }
    b
}

/// Whether `p` is a suffix of `s`.
pub fn ends_with_chars(s: &[char], p: &[char]) -> (b: bool)
    ensures
        b == p@.is_suffix_of(s@),
{
    if p.len() > s.len() {
        return false;
    }
    let start: usize = s.len() - p.len();
    let b = matches_at(s, start, p);
    proof {
        if b {
            assert(s@.subrange(start as int, s@.len() as int) =~= p@);
        } else if p@.is_suffix_of(s@) {
            assert(s@.subrange(start as int, start + p@.len()) =~= p@);
        }
    }
    b
}

/// Whether `p` occurs in `s`.
pub fn contains_chars(s: &[char], p: &[char]) -> (b: bool)
    ensures
        b == contains_seq(s@, p@),
{
    let n: usize = s.len();
    if p.len() == 0 {
        assert(s@.subrange(0, 0) =~= p@);
        assert(occurs_at(s@, p@, 0));
        return true;
    }
    if p.len() > n {
        return false;
    }
    let last: usize = n - p.len() + 1;
    for i in 0..last
        invariant
            n == s@.len(),
            last == n - p@.len() + 1,
            forall|j: int| 0 <= j < i ==> !occurs_at(s@, p@, j),
    {
        if matches_at(s, i, p) {
            return true;
        }
    }
    false
}

/// Whether `a` and `b` hold the same characters.
pub fn chars_eq(a: &[char], b: &[char]) -> (r: bool)
    ensures
        r == (a@ == b@),
{
    if a.len() != b.len() {
        return false;
    }
    let n: usize = a.len();
    for i in 0..n
        invariant
            n == a@.len(),
            n == b@.len(),
            forall|j: int| 0 <= j < i ==> a@[j] == b@[j],
    {
        if a[i] != b[i] {
            return false;
        }
    }
    assert(a@ =~= b@);
    true
}

/// A copy of `s[a..b]`.
pub fn sub_chars(s: &[char], a: usize, b: usize) -> (r: Vec<char>)
    requires
        a <= b <= s@.len(),
    ensures
        r@ == s@.subrange(a as int, b as int),
{
    let mut r: Vec<char> = Vec::new();
    for i in a..b
        invariant
            a <= b <= s@.len(),
            r@ == s@.subrange(a as int, i as int),
    {
        r.push(s[i]);
        assert(s@.subrange(a as int, i + 1) =~= s@.subrange(a as int, i as int).push(s@[i as int]));
    }
    r
}

/// Unicode `White_Space`: the characters for which `char::is_whitespace` holds.
pub open spec fn is_white_space(c: char) -> bool {
    let u = c as u32;
    ||| 0x9 <= u <= 0xd
    ||| u == 0x20
    ||| u == 0x85
    ||| u == 0xa0
    ||| u == 0x1680
    ||| 0x2000 <= u <= 0x200a
    ||| u == 0x2028
    ||| u == 0x2029
    ||| u == 0x202f
    ||| u == 0x205f
    ||| u == 0x3000
}

/// Whether `c` is white space (`char::is_whitespace`).
pub fn is_whitespace_char(c: char) -> (b: bool)
    ensures
        b == is_white_space(c),
{
    let u: u32 = c as u32;
    (0x9 <= u && u <= 0xd) || u == 0x20 || u == 0x85 || u == 0xa0 || u == 0x1680 || (0x2000 <= u
        && u <= 0x200a) || u == 0x2028 || u == 0x2029 || u == 0x202f || u == 0x205f || u == 0x3000
}

/// Every character of `s` is white space (true of the empty sequence).
pub open spec fn all_white_space(s: Seq<char>) -> bool {
    forall|i: int| 0 <= i < s.len() ==> is_white_space(#[trigger] s[i])
}

/// `s` without its leading white space.
pub open spec fn trim_start_spec(s: Seq<char>) -> Seq<char>
    decreases s.len(),
{
    if s.len() > 0 && is_white_space(s[0]) {
        trim_start_spec(s.skip(1))
    } else {
        s
    }
}

/// `s` without its trailing white space.
pub open spec fn trim_end_spec(s: Seq<char>) -> Seq<char>
    decreases s.len(),
{
    if s.len() > 0 && is_white_space(s.last()) {
        trim_end_spec(s.drop_last())
    } else {
        s
    }
}

/// `s` without leading and trailing white space (`str::trim`).
pub open spec fn trim_spec(s: Seq<char>) -> Seq<char> {
    trim_end_spec(trim_start_spec(s))
}

proof fn lemma_trim_start_skip(s: Seq<char>, a: int)
    requires
        0 <= a <= s.len(),
        forall|j: int| 0 <= j < a ==> is_white_space(#[trigger] s[j]),
    ensures
        trim_start_spec(s) == trim_start_spec(s.skip(a)),
    decreases a,
{
    if a > 0 {
        assert(s.skip(1).skip(a - 1) =~= s.skip(a));
        assert forall|j: int| 0 <= j < a - 1 implies is_white_space(#[trigger] s.skip(1)[j]) by {
            assert(s.skip(1)[j] == s[j + 1]);
        }
        lemma_trim_start_skip(s.skip(1), a - 1);
    }
    else {
        assert(s.skip(0) =~= s);
    }
}

proof fn lemma_trim_end_take(s: Seq<char>, b: int)
    requires
        0 <= b <= s.len(),
        forall|j: int| b <= j < s.len() ==> is_white_space(#[trigger] s[j]),
    ensures
        trim_end_spec(s) == trim_end_spec(s.take(b)),
    decreases s.len() - b,
{
    if b < s.len() {
        assert(s.drop_last().take(b) =~= s.take(b));
        lemma_trim_end_take(s.drop_last(), b);
    } else {
        assert(s.take(b) =~= s);
    }
}

/// `s` without leading and trailing white space (`str::trim`).
pub fn trim_chars(s: &[char]) -> (r: Vec<char>)
    ensures
        r@ == trim_spec(s@),
{
    let n: usize = s.len();
    let mut a: usize = 0;
    while a < n && is_whitespace_char(s[a])
        invariant
            n == s@.len(),
            a <= n,
            forall|j: int| 0 <= j < a ==> is_white_space(#[trigger] s@[j]),
        decreases n - a,
    {
        a = a + 1;
    }
    proof {
        lemma_trim_start_skip(s@, a as int);
    }
    let ghost t = s@.skip(a as int);
    assert(trim_start_spec(t) == t);
    let mut b: usize = n;
    while b > a && is_whitespace_char(s[b - 1])
        invariant
            n == s@.len(),
            a <= b <= n,
            t == s@.skip(a as int),
            forall|j: int| b - a <= j < t.len() ==> is_white_space(#[trigger] t[j]),
        decreases b,
    {
        assert(t[b - 1 - a] == s@[b - 1]);
        b = b - 1;
    }
    proof {
        lemma_trim_end_take(t, b - a);
        let u = t.take(b - a);
        assert(u =~= s@.subrange(a as int, b as int));
        if u.len() > 0 {
            assert(u.last() == s@[b - 1]);
        }
    }
    sub_chars(s, a, b)
}

/// `l` without one trailing carriage return.
pub open spec fn strip_cr(l: Seq<char>) -> Seq<char> {
    if l.len() > 0 && l.last() == '\r' {
        l.drop_last()
    } else {
        l
    }
}

/// Index of the first line feed in `s`, or its length when there is none.
pub open spec fn line_end(s: Seq<char>) -> int
    decreases s.len(),
{
    if s.len() == 0 {
        0
    } else if s[0] == '\n' {
        0
    } else {
        1 + line_end(s.skip(1))
    }
}

pub proof fn lemma_line_end_bounds(s: Seq<char>)
    ensures
        0 <= line_end(s) <= s.len(),
        line_end(s) < s.len() ==> s[line_end(s)] == '\n',
        forall|j: int| 0 <= j < line_end(s) ==> s[j] != '\n',
    decreases s.len(),
{
    if s.len() > 0 && s[0] != '\n' {
        lemma_line_end_bounds(s.skip(1));
        assert forall|j: int| 0 <= j < line_end(s) implies s[j] != '\n' by {
            if j > 0 {
                assert(s.skip(1)[j - 1] == s[j]);
            }
        }
    }
}

pub proof fn lemma_line_end_is(s: Seq<char>, m: int)
    requires
        0 <= m <= s.len(),
        m < s.len() ==> s[m] == '\n',
        forall|j: int| 0 <= j < m ==> s[j] != '\n',
    ensures
        line_end(s) == m,
    decreases m,
{
    if m > 0 {
        assert forall|j: int| 0 <= j < m - 1 implies s.skip(1)[j] != '\n' by {
            assert(s.skip(1)[j] == s[j + 1]);
        }
        lemma_line_end_is(s.skip(1), m - 1);
    }
}

/// The lines of `s` as `str::lines` yields them: split at each line feed, one
/// carriage return before a line feed dropped, no empty line after a final line feed.
pub open spec fn lines_spec(s: Seq<char>) -> Seq<Seq<char>>
    decreases s.len(),
{
    if s.len() == 0 {
        seq![]
    } else {
        let k = line_end(s);
        proof {
            lemma_line_end_bounds(s);
        }
        if k < s.len() {
            seq![strip_cr(s.take(k))] + lines_spec(s.skip(k + 1))
        } else {
            seq![s]
        }
    }
}

/// The views of a vector of character vectors.
pub open spec fn views(v: Seq<Vec<char>>) -> Seq<Seq<char>> {
    v.map_values(|x: Vec<char>| x@)
}

/// The lines of `s` (`str::lines`).
pub fn lines_of(s: &[char]) -> (r: Vec<Vec<char>>)
    ensures
        views(r@) == lines_spec(s@),
{
    let n: usize = s.len();
    let mut out: Vec<Vec<char>> = Vec::new();
    let mut start: usize = 0;
    assert(s@.skip(0) =~= s@);
    while start < n
        invariant
            n == s@.len(),
            start <= n,
            views(out@) + lines_spec(s@.skip(start as int)) == lines_spec(s@),
        decreases n - start,
    {
        let ghost rest = s@.skip(start as int);
        let mut j: usize = start;
        while j < n && s[j] != '\n'
            invariant
                n == s@.len(),
                start <= j <= n,
                forall|t: int| start <= t < j ==> s@[t] != '\n',
            decreases n - j,
        {
            j = j + 1;
        }
        proof {
            assert forall|t: int| 0 <= t < j - start implies rest[t] != '\n' by {
                assert(rest[t] == s@[start + t]);
            }
            lemma_line_end_is(rest, j - start);
        }
        let ghost old_views = views(out@);
        if j < n {
            let mut e: usize = j;
            if e > start && s[e - 1] == '\r' {
                e = e - 1;
            }
            let line = sub_chars(s, start, e);
            proof {
                let l = rest.take(j - start);
                assert(l =~= s@.subrange(start as int, j as int));
                if l.len() > 0 && l.last() == '\r' {
                    assert(strip_cr(l) =~= line@);
                } else {
                    assert(strip_cr(l) =~= line@);
                }
                assert(rest.skip(j - start + 1) =~= s@.skip(j + 1));
            }
            out.push(line);
            start = j + 1;
            assert(views(out@) =~= old_views.push(line@));
            assert(views(out@) + lines_spec(s@.skip(start as int)) =~= old_views + lines_spec(rest));
        } else {
            let line = sub_chars(s, start, n);
            assert(line@ =~= rest);
            out.push(line);
            start = n;
            assert(views(out@) =~= old_views.push(line@));
            assert(s@.skip(n as int) =~= Seq::<char>::empty());
            assert(views(out@) + lines_spec(s@.skip(start as int)) =~= old_views + lines_spec(rest));
        }
    }
    assert(s@.skip(n as int) =~= Seq::<char>::empty());
    assert(views(out@) + lines_spec(s@.skip(n as int)) =~= views(out@));
    out
}


/// A space or a tab.
pub open spec fn is_blank(c: char) -> bool {
    c == ' ' || c == '\t'
}

/// Length of the run of spaces and tabs that `s` starts with.
pub open spec fn blank_run(s: Seq<char>) -> nat
    decreases s.len(),
{
    if s.len() > 0 && is_blank(s[0]) {
        1 + blank_run(s.skip(1))
    } else {
        0
    }
}

pub proof fn lemma_blank_run_bounds(s: Seq<char>)
    ensures
        blank_run(s) <= s.len(),
        forall|j: int| 0 <= j < blank_run(s) ==> is_blank(#[trigger] s[j]),
        blank_run(s) < s.len() ==> !is_blank(s[blank_run(s) as int]),
    decreases s.len(),
{
    if s.len() > 0 && is_blank(s[0]) {
        lemma_blank_run_bounds(s.skip(1));
        assert forall|j: int| 0 <= j < blank_run(s) implies is_blank(#[trigger] s[j]) by {
            if j > 0 {
                assert(s.skip(1)[j - 1] == s[j]);
            }
        }
    }
}

proof fn lemma_blank_run_is(s: Seq<char>, m: int)
    requires
        0 <= m <= s.len(),
        m < s.len() ==> !is_blank(s[m]),
        forall|j: int| 0 <= j < m ==> is_blank(#[trigger] s[j]),
    ensures
        blank_run(s) == m,
    decreases m,
{
    if m > 0 {
        assert forall|j: int| 0 <= j < m - 1 implies is_blank(#[trigger] s.skip(1)[j]) by {
            assert(s.skip(1)[j] == s[j + 1]);
        }
        lemma_blank_run_is(s.skip(1), m - 1);
    }
}

/// Every run of two or more spaces and tabs in `s` replaced by one space, which is
/// what replacing all matches of the pattern `[ \t]{2,}` by `" "` gives.
pub open spec fn collapse_blanks_spec(s: Seq<char>) -> Seq<char>
    decreases s.len(),
{
    if s.len() == 0 {
        s
    } else if blank_run(s) >= 2 {
        proof {
            lemma_blank_run_bounds(s);
        }
        seq![' '] + collapse_blanks_spec(s.skip(blank_run(s) as int))
    } else {
        seq![s[0]] + collapse_blanks_spec(s.skip(1))
    }
}

proof fn lemma_collapse_head(s: Seq<char>)
    ensures
        s.len() > 0 ==> collapse_blanks_spec(s).len() > 0 && (is_blank(collapse_blanks_spec(s)[0])
            <==> is_blank(s[0])),
        s.len() == 0 ==> collapse_blanks_spec(s).len() == 0,
{
    if s.len() > 0 {
        lemma_blank_run_bounds(s);
        if blank_run(s) >= 2 {
            assert(is_blank(s[0]));
        }
    }
}

/// No two blanks (spaces or tabs) follow each other in `s`.
pub open spec fn no_adjacent_blanks(s: Seq<char>) -> bool {
    forall|i: int| 0 <= i < s.len() - 1 ==> !(is_blank(#[trigger] s[i]) && is_blank(s[i + 1]))
}

/// After collapsing, no two spaces or tabs are adjacent.
pub proof fn law_collapse_leaves_no_adjacent_blanks(s: Seq<char>)
    ensures
        no_adjacent_blanks(collapse_blanks_spec(s)),
    decreases s.len(),
{
    if s.len() > 0 {
        lemma_blank_run_bounds(s);
        let r = collapse_blanks_spec(s);
        if blank_run(s) >= 2 {
            let k = blank_run(s) as int;
            let rest = s.skip(k);
            law_collapse_leaves_no_adjacent_blanks(rest);
            lemma_collapse_head(rest);
            if k < s.len() {
                assert(rest[0] == s[k]);
            }
            assert forall|i: int| 0 <= i < r.len() - 1 implies !(is_blank(#[trigger] r[i]) && is_blank(r[i + 1])) by {
                if i > 0 {
                    assert(r[i] == collapse_blanks_spec(rest)[i - 1]);
                    assert(r[i + 1] == collapse_blanks_spec(rest)[i]);
                } else {
                    assert(r[1] == collapse_blanks_spec(rest)[0]);
                }
            }
        } else {
            let rest = s.skip(1);
            law_collapse_leaves_no_adjacent_blanks(rest);
            lemma_collapse_head(rest);
            if is_blank(s[0]) && rest.len() > 0 {
                assert(rest[0] == s[1]);
                if is_blank(s[1]) {
                    lemma_blank_run_bounds(rest);
                    assert(blank_run(s) >= 2);
                }
            }
            assert forall|i: int| 0 <= i < r.len() - 1 implies !(is_blank(#[trigger] r[i]) && is_blank(r[i + 1])) by {
                if i > 0 {
                    assert(r[i] == collapse_blanks_spec(rest)[i - 1]);
                    assert(r[i + 1] == collapse_blanks_spec(rest)[i]);
                } else {
                    assert(r[1] == collapse_blanks_spec(rest)[0]);
                }
            }
        }
    }
}

/// Collapses each run of two or more spaces and tabs into one space.
pub fn collapse_blanks(s: &[char]) -> (r: Vec<char>)
    ensures
        r@ == collapse_blanks_spec(s@),
{
    let n: usize = s.len();
    let mut out: Vec<char> = Vec::new();
    let mut i: usize = 0;
    assert(s@.skip(0) =~= s@);
    while i < n
        invariant
            n == s@.len(),
            i <= n,
            out@ + collapse_blanks_spec(s@.skip(i as int)) == collapse_blanks_spec(s@),
        decreases n - i,
    {
        let ghost rest = s@.skip(i as int);
        let ghost before = out@;
        let mut j: usize = i;
        while j < n && (s[j] == ' ' || s[j] == '\t')
            invariant
                n == s@.len(),
                i <= j <= n,
                forall|t: int| i <= t < j ==> is_blank(#[trigger] s@[t]),
            decreases n - j,
        {
            j = j + 1;
        }
        proof {
            assert forall|t: int| 0 <= t < j - i implies is_blank(#[trigger] rest[t]) by {
                assert(rest[t] == s@[i + t]);
            }
            lemma_blank_run_is(rest, j - i);
        }
        if j - i >= 2 {
            out.push(' ');
            assert(rest.skip(j - i) =~= s@.skip(j as int));
            i = j;
            assert(before + (seq![' '] + collapse_blanks_spec(s@.skip(i as int))) =~= out@
                + collapse_blanks_spec(s@.skip(i as int)));
        } else {
            out.push(s[i]);
            assert(rest.skip(1) =~= s@.skip(i + 1));
            i = i + 1;
            assert(before + (seq![s@[i - 1]] + collapse_blanks_spec(s@.skip(i as int))) =~= out@
                + collapse_blanks_spec(s@.skip(i as int)));
        }
    }
    assert(s@.skip(n as int) =~= Seq::<char>::empty());
    assert(out@ + collapse_blanks_spec(s@.skip(n as int)) =~= out@);
    out
}

/// Number of occurrences of `c` in `s`.
pub open spec fn count_char_spec(s: Seq<char>, c: char) -> nat
    decreases s.len(),
{
    if s.len() == 0 {
        0
    } else {
        count_char_spec(s.drop_last(), c) + if s.last() == c {
            1nat
        } else {
            0nat
        }
    }
}

/// Number of occurrences of `c` in `s`.
pub fn count_char(s: &[char], c: char) -> (k: usize)
    ensures
        k == count_char_spec(s@, c),
{
    let n: usize = s.len();
    let mut k: usize = 0;
    for i in 0..n
        invariant
            n == s@.len(),
            k == count_char_spec(s@.take(i as int), c),
            k <= i,
    {
        assert(s@.take(i + 1).drop_last() =~= s@.take(i as int));
        if s[i] == c {
            k = k + 1;
        }
    }
    assert(s@.take(n as int) =~= s@);
    k
}

/// The ASCII digit for `d` (`0 <= d < 10`).
pub open spec fn digit_char(d: int) -> char {
    (d + 48) as char
}

/// Decimal notation of `n`, without leading zeros.
pub open spec fn decimal_spec(n: nat) -> Seq<char>
    decreases n,
{
    if n < 10 {
        seq![digit_char(n as int)]
    } else {
        decimal_spec(n / 10) + seq![digit_char((n % 10) as int)]
    }
}

/// Decimal notation of `n`, with a minus sign when negative (`Display` for integers).
pub open spec fn int_decimal(n: int) -> Seq<char> {
    if n < 0 {
        seq!['-'] + decimal_spec((-n) as nat)
    } else {
        decimal_spec(n as nat)
    }
}

fn digit(d: u64) -> (c: char)
    requires
        d < 10,
    ensures
        c == digit_char(d as int),
{
    let b: u8 = (d as u8) + 48;
    b as char
}

/// Decimal notation of `n`.
pub fn decimal_u64(n: u64) -> (r: Vec<char>)
    ensures
        r@ == decimal_spec(n as nat),
    decreases n,
{
    if n < 10 {
        let mut v: Vec<char> = Vec::new();
        v.push(digit(n));
        assert(v@ =~= seq![digit_char(n as int)]);
        v
    } else {
        let mut v = decimal_u64(n / 10);
        v.push(digit(n % 10));
        v
    }
}

/// Decimal notation of `n`, with a minus sign when negative.
pub fn decimal_i64(n: i64) -> (r: Vec<char>)
    requires
        n > i64::MIN,
    ensures
        r@ == int_decimal(n as int),
{
    if n < 0 {
        let mut v: Vec<char> = Vec::new();
        v.push('-');
        let m: u64 = (-n) as u64;
        let d = decimal_u64(m);
        extend_chars(&mut v, d.as_slice());
        v
    } else {
        decimal_u64(n as u64)
    }
}

/// An ASCII decimal digit.
pub open spec fn is_ascii_digit(c: char) -> bool {
    48 <= c as u32 <= 57
}

/// Value of a sequence of ASCII decimal digits.
pub open spec fn digits_value(s: Seq<char>) -> int
    decreases s.len(),
{
    if s.len() == 0 {
        0
    } else {
        digits_value(s.drop_last()) * 10 + (s.last() as u32 - 48)
    }
}

/// `s` without one leading `+` or `-`.
pub open spec fn sign_stripped(s: Seq<char>) -> Seq<char> {
    if s.len() > 0 && (s[0] == '-' || s[0] == '+') {
        s.skip(1)
    } else {
        s
    }
}

/// Every character of `s` is an ASCII digit.
pub open spec fn all_digits(s: Seq<char>) -> bool {
    forall|i: int| 0 <= i < s.len() ==> is_ascii_digit(#[trigger] s[i])
}

/// What `str::parse::<i32>` gives: an optional `+` or `-`, then one or more ASCII
/// digits whose value fits in an `i32`; anything else is refused.
pub open spec fn parse_i32_spec(s: Seq<char>) -> Option<i32> {
    let digits = sign_stripped(s);
    let v = if s.len() > 0 && s[0] == '-' {
        -digits_value(digits)
    } else {
        digits_value(digits)
    };
    if digits.len() == 0 || !all_digits(digits) {
        None
    } else if i32::MIN <= v <= i32::MAX {
        Some(v as i32)
    } else {
        None
    }
}

proof fn lemma_digits_value_grows(s: Seq<char>, k: int)
    requires
        0 <= k <= s.len(),
        forall|i: int| 0 <= i < s.len() ==> is_ascii_digit(#[trigger] s[i]),
    ensures
        digits_value(s) >= digits_value(s.take(k)) >= 0,
    decreases s.len(),
{
    if s.len() > 0 {
        let d = s.drop_last();
        assert forall|i: int| 0 <= i < d.len() implies is_ascii_digit(#[trigger] d[i]) by {
            assert(d[i] == s[i]);
        }
        assert(is_ascii_digit(s[s.len() - 1]));
        if k == s.len() {
            assert(s.take(k) =~= s);
            lemma_digits_value_grows(d, 0);
        } else {
            assert(d.take(k) =~= s.take(k));
            lemma_digits_value_grows(d, k);
        }
    } else {
        assert(s.take(k) =~= s);
    }
}

/// Parses `s` as an `i32` (`str::parse::<i32>`).
pub fn parse_i32(s: &[char]) -> (r: Option<i32>)
    ensures
        r == parse_i32_spec(s@),
{
    let n: usize = s.len();
    if n == 0 {
        return None;
    }
    let neg: bool = s[0] == '-';
    let start: usize = if s[0] == '-' || s[0] == '+' {
        1
    } else {
        0
    };
    let ghost digits = sign_stripped(s@);
    assert(digits =~= s@.skip(start as int));
    if start == n {
        return None;
    }
    let mut acc: i64 = 0;
    let mut i: usize = start;
    while i < n
        invariant
            n == s@.len(),
            start <= i <= n,
            digits == s@.skip(start as int),
            digits == sign_stripped(s@),
            neg == (s@[0] == '-'),
            acc == digits_value(digits.take(i - start)),
            0 <= acc <= 2147483648,
            forall|t: int| 0 <= t < i - start ==> is_ascii_digit(#[trigger] digits[t]),
        decreases n - i,
    {
        let c: char = s[i];
        assert(digits[i - start] == c);
        if !((c as u32) >= 48 && (c as u32) <= 57) {
            assert(!is_ascii_digit(digits[i - start]));
            return None;
        }
        assert(digits.take(i - start + 1).drop_last() =~= digits.take(i - start));
        acc = acc * 10 + ((c as u32) - 48) as i64;
        i = i + 1;
        if acc > 2147483648 {
            proof {
                if all_digits(digits) {
                    lemma_digits_value_grows(digits, i - start);
                }
            }
            return None;
        }
    }
    assert(digits.take(n - start) =~= digits);
    let v: i64 = if neg {
        -acc
    } else {
        acc
    };
    if v < -2147483648 || v > 2147483647 {
        return None;
    }
    Some(v as i32)
}

/// What `str::to_lowercase` gives for `s`: its lowercase mapping under Unicode
/// (Derived Core Property `Lowercase`).
pub uninterp spec fn lowercase_of(s: Seq<char>) -> Seq<char>;

/// `str::to_lowercase`. The result is named `lowercase_of`: the Unicode case
/// mapping is not restated here.
#[verifier::external_body]
pub(crate) fn to_lowercase(s: &str) -> (r: String)
    ensures
        r@ == lowercase_of(s@),
{
    s.to_lowercase()
}

} // verus!
