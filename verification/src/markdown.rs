//! Clean-up of the Markdown rendering of an article: link targets made absolute,
//! blank lines and spaces tidied, table separators added, empty bold pairs dropped.
use vstd::prelude::*;

use crate::text::{
    all_white_space, chars_of, law_replace_without_occurrence, occurs_at, collapse_blanks, collapse_blanks_spec, contains_chars, contains_seq,
    count_char, count_char_spec, extend_chars, is_white_space, is_whitespace_char, line_end, lines_of,
    lines_spec, strip_cr,
    replace_chars, replace_spec, sub_chars, trim_chars, trim_spec, views,
};

verus! {

/// ASCII punctuation (`char::is_ascii_punctuation`).
pub open spec fn is_ascii_punct(c: char) -> bool {
    let u = c as u32;
    ||| 0x21 <= u <= 0x2f
    ||| 0x3a <= u <= 0x40
    ||| 0x5b <= u <= 0x60
    ||| 0x7b <= u <= 0x7e
}

/// Punctuation after which a closing `**` needs no space: ASCII punctuation and
/// the full-width marks `，。！？；：（）【】《》…、`.
pub open spec fn is_punctuation_spec(c: char) -> bool {
    let u = c as u32;
    ||| is_ascii_punct(c)
    ||| u == 0xff0c || u == 0x3002 || u == 0xff01 || u == 0xff1f || u == 0xff1b || u == 0xff1a
    ||| u == 0xff08 || u == 0xff09 || u == 0x3010 || u == 0x3011 || u == 0x300a || u == 0x300b
    ||| u == 0x2026 || u == 0x3001
}

/// Whether `c` is punctuation in the sense of [`is_punctuation_spec`].
pub fn is_punctuation(c: char) -> (b: bool)
    ensures
        b == is_punctuation_spec(c),
{
    let u: u32 = c as u32;
    (0x21 <= u && u <= 0x2f) || (0x3a <= u && u <= 0x40) || (0x5b <= u && u <= 0x60) || (0x7b <= u
        && u <= 0x7e) || u == 0xff0c || u == 0x3002 || u == 0xff01 || u == 0xff1f || u == 0xff1b
        || u == 0xff1a || u == 0xff08 || u == 0xff09 || u == 0x3010 || u == 0x3011 || u == 0x300a
        || u == 0x300b || u == 0x2026 || u == 0x3001
}

/// `**` starts at index `k` of `s`.
pub open spec fn double_star_at(s: Seq<char>, k: int) -> bool {
    0 <= k && k + 1 < s.len() && s[k] == '*' && s[k + 1] == '*'
}

/// Index of the first `**` in `s`.
pub open spec fn first_double_star(s: Seq<char>) -> Option<int>
    decreases s.len(),
{
    if s.len() < 2 {
        None
    } else if s[0] == '*' && s[1] == '*' {
        Some(0)
    } else {
        match first_double_star(s.skip(1)) {
            Some(k) => Some(k + 1),
            None => None,
        }
    }
}

pub proof fn lemma_first_double_star(s: Seq<char>)
    ensures
        match first_double_star(s) {
            Some(k) => double_star_at(s, k) && forall|t: int| 0 <= t < k ==> !double_star_at(s, t),
            None => forall|t: int| !double_star_at(s, t),
        },
    decreases s.len(),
{
    if s.len() >= 2 && !(s[0] == '*' && s[1] == '*') {
        lemma_first_double_star(s.skip(1));
        assert forall|t: int| 0 < t && double_star_at(s, t) implies double_star_at(s.skip(1), t - 1) by {
        }
    }
}

proof fn lemma_first_double_star_is(s: Seq<char>, k: int)
    requires
        double_star_at(s, k),
        forall|t: int| 0 <= t < k ==> !double_star_at(s, t),
    ensures
        first_double_star(s) == Some(k),
{
    lemma_first_double_star(s);
    match first_double_star(s) {
        Some(m) => {
            if m < k {
                assert(!double_star_at(s, m));
            } else if m > k {
            }
        },
        None => {
            assert(!double_star_at(s, k));
        },
    }
}

proof fn lemma_first_double_star_none(s: Seq<char>)
    requires
        forall|t: int| !double_star_at(s, t),
    ensures
        first_double_star(s) is None,
{
    lemma_first_double_star(s);
    if let Some(m) = first_double_star(s) {
        assert(!double_star_at(s, m));
    }
}

/// A space when the text after a closing `**` starts with something other than
/// white space or punctuation.
pub open spec fn bold_spacer(after: Seq<char>) -> Seq<char> {
    if after.len() > 0 && !is_white_space(after[0]) && !is_punctuation_spec(after[0]) {
        seq![' ']
    } else {
        seq![]
    }
}

/// `s` with each `**…**` pair whose inside is all white space removed; every other
/// pair kept, followed by a space when a word follows it directly. An opening `**`
/// without a closing one, and all text after it, is kept as it is.
pub open spec fn strip_empty_bold_spec(s: Seq<char>) -> Seq<char>
    decreases s.len(),
{
    if s.len() == 0 {
        s
    } else if double_star_at(s, 0) {
        let rest = s.skip(2);
        match first_double_star(rest) {
            Some(k) => {
                proof {
                    lemma_first_double_star(rest);
                }
                let inner = rest.take(k);
                let after = rest.skip(k + 2);
                if all_white_space(inner) {
                    strip_empty_bold_spec(after)
                } else {
                    seq!['*', '*'] + inner + seq!['*', '*'] + bold_spacer(after) + strip_empty_bold_spec(
                        after,
                    )
                }
            },
            None => seq!['*', '*'] + rest,
        }
    } else {
        seq![s[0]] + strip_empty_bold_spec(s.skip(1))
    }
}

/// Whether every character of `s[a..b]` is white space.
fn all_white_space_range(s: &[char], a: usize, b: usize) -> (r: bool)
    requires
        a <= b <= s@.len(),
    ensures
        r == all_white_space(s@.subrange(a as int, b as int)),
{
    for i in a..b
        invariant
            a <= b <= s@.len(),
            forall|t: int| a <= t < i ==> is_white_space(#[trigger] s@[t]),
    {
        if !is_whitespace_char(s[i]) {
            assert(s@.subrange(a as int, b as int)[i - a] == s@[i as int]);
            return false;
        }
    }
    assert forall|t: int| 0 <= t < b - a implies is_white_space(#[trigger] s@.subrange(a as int, b as int)[t]) by {
        assert(s@.subrange(a as int, b as int)[t] == s@[a + t]);
    }
    true
}

/// The output for the `**` that starts at index `i` of `md`, and the index where
/// the scan goes on.
fn bold_pair_at(md: &[char], i: usize) -> (r: (Vec<char>, usize))
    requires
        double_star_at(md@, i as int),
    ensures
        i < r.1 <= md@.len(),
        r.0@ + strip_empty_bold_spec(md@.skip(r.1 as int)) == strip_empty_bold_spec(md@.skip(i as int)),
{
    let n: usize = md.len();
    let ghost s = md@;
    let ghost cur = s.skip(i as int);
    assert(double_star_at(cur, 0));
    let j0: usize = i + 2;
    let ghost rest = cur.skip(2);
    assert(rest =~= s.skip(j0 as int));
    let mut j: usize = j0;
    while j < n && j + 1 < n && !(md[j] == '*' && md[j + 1] == '*')
        invariant
            n == s.len(),
            s == md@,
            j0 <= j <= n,
            forall|t: int| j0 <= t < j ==> !double_star_at(s, t),
        decreases n - j,
    {
        j = j + 1;
    }
    assert forall|t: int| 0 <= t < j - j0 implies !double_star_at(rest, t) by {
        assert(!double_star_at(s, j0 + t));
        if double_star_at(rest, t) {
            assert(rest[t] == s[j0 + t]);
            assert(rest[t + 1] == s[j0 + t + 1]);
        }
    }
    let mut out: Vec<char> = Vec::new();
    if j < n && j + 1 < n {
        let k: usize = j - j0;
        assert(rest[k as int] == s[j as int]);
        assert(rest[k + 1] == s[j + 1]);
        proof {
            lemma_first_double_star_is(rest, k as int);
        }
        let a: usize = j + 2;
        assert(rest.take(k as int) =~= s.subrange(j0 as int, j as int));
        assert(rest.skip(k + 2) =~= s.skip(a as int));
        if all_white_space_range(md, j0, j) {
            assert(out@ + strip_empty_bold_spec(s.skip(a as int)) =~= strip_empty_bold_spec(s.skip(a as int)));
            (out, a)
        } else {
            out.push('*');
            out.push('*');
            let inner = sub_chars(md, j0, j);
            extend_chars(&mut out, inner.as_slice());
            out.push('*');
            out.push('*');
            if a < n && !is_whitespace_char(md[a]) && !is_punctuation(md[a]) {
                out.push(' ');
            }
            assert(s.skip(a as int).len() > 0 ==> s.skip(a as int)[0] == s[a as int]);
            assert(out@ =~= seq!['*', '*'] + inner@ + seq!['*', '*'] + bold_spacer(s.skip(a as int)));
            (out, a)
        }
    } else {
        assert forall|t: int| !double_star_at(rest, t) by {
            if double_star_at(rest, t) {
                assert(rest[t] == s[j0 + t]);
                assert(rest[t + 1] == s[j0 + t + 1]);
                assert(t < j - j0);
            }
        }
        proof {
            lemma_first_double_star_none(rest);
        }
        out.push('*');
        out.push('*');
        let tail = sub_chars(md, j0, n);
        extend_chars(&mut out, tail.as_slice());
        assert(tail@ =~= rest);
        assert(s.skip(n as int) =~= Seq::<char>::empty());
        assert(out@ + strip_empty_bold_spec(s.skip(n as int)) =~= seq!['*', '*'] + rest);
        (out, n)
    }
}

/// Removes the empty `**…**` pairs of `md` (see [`strip_empty_bold_spec`]).
pub fn remove_empty_bold_pairs(md: &[char]) -> (r: Vec<char>)
    ensures
        r@ == strip_empty_bold_spec(md@),
{
    let n: usize = md.len();
    let mut out: Vec<char> = Vec::new();
    let mut i: usize = 0;
    let ghost s = md@;
    assert(s.skip(0) =~= s);
    while i < n
        invariant
            n == s.len(),
            s == md@,
            i <= n,
            out@ + strip_empty_bold_spec(s.skip(i as int)) == strip_empty_bold_spec(s),
        decreases n - i,
    {
        let ghost cur = s.skip(i as int);
        let ghost before = out@;
        if i + 1 < n && md[i] == '*' && md[i + 1] == '*' {
            let (piece, next) = bold_pair_at(md, i);
            extend_chars(&mut out, piece.as_slice());
            i = next;
            assert(before + (piece@ + strip_empty_bold_spec(s.skip(i as int))) =~= out@
                + strip_empty_bold_spec(s.skip(i as int)));
        } else {
            assert(!double_star_at(cur, 0));
            out.push(md[i]);
            assert(cur.skip(1) =~= s.skip(i + 1));
            i = i + 1;
            assert(before + (seq![s[i - 1]] + strip_empty_bold_spec(s.skip(i as int))) =~= out@
                + strip_empty_bold_spec(s.skip(i as int)));
        }
    }
    assert(s.skip(n as int) =~= Seq::<char>::empty());
    assert(out@ + strip_empty_bold_spec(s.skip(n as int)) =~= out@);
    out
}


/// `clean_markdown`: empty bold pairs removed, then every `****` removed.
pub open spec fn clean_markdown_spec(md: Seq<char>) -> Seq<char> {
    replace_spec(strip_empty_bold_spec(md), "****"@, ""@)
}

/// Removes empty bold pairs and then every `****` from `md`.
pub fn clean_markdown(md: &[char]) -> (r: Vec<char>)
    ensures
        r@ == clean_markdown_spec(md@),
{
    let stripped = remove_empty_bold_pairs(md);
    let stars = chars_of("****");
    let none = chars_of("");
    replace_chars(stripped.as_slice(), stars.as_slice(), none.as_slice())
}

/// Text without any `*` goes through `clean_markdown` unchanged.
pub proof fn law_clean_markdown_without_stars(s: Seq<char>)
    requires
        !s.contains('*'),
    ensures
        strip_empty_bold_spec(s) == s,
        clean_markdown_spec(s) == s,
    decreases s.len(),
{
    if s.len() > 0 {
        assert(s[0] != '*');
        assert(!s.skip(1).contains('*')) by {
            if s.skip(1).contains('*') {
                let i = choose|i: int| 0 <= i < s.skip(1).len() && s.skip(1)[i] == '*';
                assert(s[i + 1] == '*');
            }
        }
        law_clean_markdown_without_stars(s.skip(1));
        assert(seq![s[0]] + s.skip(1) =~= s);
    }
    reveal_strlit("****");
    assert(!contains_seq(s, "****"@)) by {
        if contains_seq(s, "****"@) {
            let i = choose|i: int| occurs_at(s, "****"@, i);
            assert(s.subrange(i, i + 4)[0] == '*');
            assert(s[i] == '*');
        }
    }
    law_replace_without_occurrence(s, "****"@, ""@);
}

/// The full-width marks `，。！？；：（）【】《》…、` and the ASCII marks count as
/// punctuation: a closing `**` takes no space before any of them.
pub proof fn law_marks_are_punctuation(rest: Seq<char>)
    ensures
        is_punctuation_spec('，'),
        is_punctuation_spec('。'),
        is_punctuation_spec('！'),
        is_punctuation_spec('？'),
        is_punctuation_spec('；'),
        is_punctuation_spec('：'),
        is_punctuation_spec('（'),
        is_punctuation_spec('）'),
        is_punctuation_spec('【'),
        is_punctuation_spec('】'),
        is_punctuation_spec('《'),
        is_punctuation_spec('》'),
        is_punctuation_spec('…'),
        is_punctuation_spec('、'),
        forall|c: char|
            c == ',' || c == '.' || c == ':' || c == ';' || c == '!' || c == '?' || c == '('
                || c == ')' || c == '"' || c == '-' ==> #[trigger] is_punctuation_spec(c),
        forall|c: char| #[trigger] is_punctuation_spec(c) ==> bold_spacer(seq![c] + rest) == Seq::<char>::empty(),
        !is_punctuation_spec('报'),
        !is_punctuation_spec('a'),
        bold_spacer(seq!['a'] + rest) == seq![' '],
{
    assert forall|c: char| #[trigger] is_punctuation_spec(c) implies bold_spacer(seq![c] + rest)
        == Seq::<char>::empty() by {
        assert((seq![c] + rest)[0] == c);
    }
    assert((seq!['a'] + rest)[0] == 'a');
}

/// A bold word followed directly by punctuation keeps that punctuation right after
/// its closing `**`; no space is put between them.
pub proof fn law_bold_word_then_punctuation(w: Seq<char>, c: char, rest: Seq<char>)
    requires
        !w.contains('*'),
        !all_white_space(w),
        is_punctuation_spec(c),
        c != '*',
    ensures
        strip_empty_bold_spec(seq!['*', '*'] + w + seq!['*', '*'] + seq![c] + rest) == seq!['*', '*']
            + w + seq!['*', '*'] + seq![c] + strip_empty_bold_spec(rest),
{
    let s = seq!['*', '*'] + w + seq!['*', '*'] + seq![c] + rest;
    let r0 = s.skip(2);
    let k = w.len() as int;
    assert(r0 =~= w + seq!['*', '*'] + seq![c] + rest);
    assert forall|t: int| 0 <= t < k implies !double_star_at(r0, t) by {
        assert(r0[t] == w[t]);
        if w[t] == '*' {
            assert(w.contains('*'));
        }
    }
    assert(double_star_at(r0, k));
    lemma_first_double_star_is(r0, k);
    assert(r0.take(k) =~= w);
    let after = r0.skip(k + 2);
    assert(after =~= seq![c] + rest);
    assert(bold_spacer(after) == Seq::<char>::empty());
    assert(!double_star_at(after, 0));
    assert(after.skip(1) =~= rest);
    assert(strip_empty_bold_spec(after) == seq![c] + strip_empty_bold_spec(rest));
    assert(double_star_at(s, 0));
    assert(strip_empty_bold_spec(s) == seq!['*', '*'] + w + seq!['*', '*'] + bold_spacer(after)
        + strip_empty_bold_spec(after));
    assert(strip_empty_bold_spec(s) =~= seq!['*', '*'] + w + seq!['*', '*'] + seq![c]
        + strip_empty_bold_spec(rest));
}

/// The number of `*` at the start of `s`.
pub open spec fn leading_stars(s: Seq<char>) -> nat
    decreases s.len(),
{
    if s.len() > 0 && s[0] == '*' {
        1 + leading_stars(s.skip(1))
    } else {
        0
    }
}

proof fn lemma_leading_stars_bound(s: Seq<char>)
    ensures
        leading_stars(s) <= s.len(),
        forall|j: int| 0 <= j < leading_stars(s) ==> s[j] == '*',
    decreases s.len(),
{
    if s.len() > 0 && s[0] == '*' {
        lemma_leading_stars_bound(s.skip(1));
        assert forall|j: int| 0 <= j < leading_stars(s) implies s[j] == '*' by {
            if j > 0 {
                assert(s[j] == s.skip(1)[j - 1]);
            }
        }
    }
}

proof fn lemma_leading_stars_skip(s: Seq<char>, k: int)
    requires
        0 <= k <= s.len(),
        forall|j: int| 0 <= j < k ==> s[j] == '*',
    ensures
        leading_stars(s) == k + leading_stars(s.skip(k)),
    decreases k,
{
    if k > 0 {
        lemma_leading_stars_skip(s.skip(1), k - 1);
        assert(s.skip(1).skip(k - 1) =~= s.skip(k));
    } else {
        assert(s.skip(0) =~= s);
    }
}

#[verifier::spinoff_prover]
proof fn lemma_four_stars_prefix(s: Seq<char>)
    ensures
        "****"@.is_prefix_of(s) <==> leading_stars(s) >= 4,
        "****"@.is_prefix_of(s) ==> leading_stars(s) == 4 + leading_stars(s.skip(4)),
{
    reveal_strlit("****");
    lemma_leading_stars_bound(s);
    if "****"@.is_prefix_of(s) {
        assert forall|j: int| 0 <= j < 4 implies s[j] == '*' by {
            assert(s[j] == "****"@[j]);
        }
        lemma_leading_stars_skip(s, 4);
    }
    if leading_stars(s) >= 4 {
        assert(s.take(4) =~= "****"@);
    }
}

#[verifier::spinoff_prover]
#[verifier::rlimit(60)]
proof fn lemma_replace_four_stars(s: Seq<char>)
    ensures
        !contains_seq(replace_spec(s, "****"@, ""@), "****"@),
        leading_stars(replace_spec(s, "****"@, ""@)) == leading_stars(s) % 4,
    decreases s.len(),
{
    reveal_strlit("****");
    reveal_strlit("");
    let p = "****"@;
    let r = replace_spec(s, p, ""@);
    lemma_four_stars_prefix(s);
    if s.len() == 0 {
        assert(!contains_seq(r, p));
    } else if p.is_prefix_of(s) {
        lemma_replace_four_stars(s.skip(4));
        assert(r =~= replace_spec(s.skip(4), p, ""@));
    } else {
        let t = replace_spec(s.skip(1), p, ""@);
        lemma_replace_four_stars(s.skip(1));
        assert(r == seq![s[0]] + t);
        assert(r.skip(1) =~= t);
        if s[0] == '*' {
            assert(leading_stars(s) == 1 + leading_stars(s.skip(1)));
            assert(leading_stars(r) == 1 + leading_stars(t));
        } else {
            assert(leading_stars(r) == 0);
        }
        assert(leading_stars(r) < 4);
        lemma_no_four_stars_after_head(r, t);
    }
}

proof fn lemma_no_four_stars_after_head(r: Seq<char>, t: Seq<char>)
    requires
        r.len() > 0,
        r.skip(1) == t,
        !contains_seq(t, "****"@),
        leading_stars(r) < 4,
    ensures
        !contains_seq(r, "****"@),
{
    reveal_strlit("****");
    let p = "****"@;
    lemma_four_stars_prefix(r);
    if contains_seq(r, p) {
        let i = choose|i: int| occurs_at(r, p, i);
        if i == 0 {
            assert(r.take(4) =~= r.subrange(0, 4));
            assert(p.is_prefix_of(r));
        } else {
            assert(t.subrange(i - 1, i - 1 + 4) =~= r.subrange(i, i + 4));
            assert(occurs_at(t, p, i - 1));
        }
    }
}

/// Cleaned Markdown holds no `****`, whatever the text it was made from: the
/// stars of adjacent bold runs are all taken out.
pub proof fn law_clean_markdown_has_no_four_stars(md: Seq<char>)
    ensures
        !contains_seq(clean_markdown_spec(md), "****"@),
{
    lemma_replace_four_stars(strip_empty_bold_spec(md));
}


/// `parts` joined with `sep` between each two (`[String]::join`).
pub open spec fn join_spec(parts: Seq<Seq<char>>, sep: Seq<char>) -> Seq<char>
    decreases parts.len(),
{
    if parts.len() == 0 {
        seq![]
    } else if parts.len() == 1 {
        parts[0]
    } else {
        parts[0] + sep + join_spec(parts.skip(1), sep)
    }
}

/// `parts` joined with `sep` between each two.
pub fn join_with(parts: &Vec<Vec<char>>, sep: &[char]) -> (r: Vec<char>)
    ensures
        r@ == join_spec(views(parts@), sep@),
{
    let n: usize = parts.len();
    let ghost v = views(parts@);
    let mut out: Vec<char> = Vec::new();
    assert(v.skip(0) =~= v);
    for i in 0..n
        invariant
            n == parts@.len(),
            v == views(parts@),
            out@ + join_spec(v.skip(i as int), sep@) == join_spec(v, sep@),
    {
        let ghost before = out@;
        assert(v.skip(i as int)[0] == parts@[i as int]@);
        assert(v.skip(i as int).skip(1) =~= v.skip(i + 1));
        extend_chars(&mut out, parts[i].as_slice());
        if i + 1 < n {
            extend_chars(&mut out, sep);
            assert(before + (parts@[i as int]@ + sep@ + join_spec(v.skip(i + 1), sep@)) =~= out@
                + join_spec(v.skip(i + 1), sep@));
        } else {
            assert(v.skip(i + 1) =~= Seq::<Seq<char>>::empty());
            assert(out@ + join_spec(v.skip(i + 1), sep@) =~= out@);
        }
    }
    assert(v.skip(n as int) =~= Seq::<Seq<char>>::empty());
    assert(out@ + join_spec(v.skip(n as int), sep@) =~= out@);
    out
}

/// `n` copies of `---` joined with ` | `.
pub open spec fn dashes(n: nat) -> Seq<char>
    decreases n,
{
    if n == 0 {
        seq![]
    } else if n == 1 {
        "---"@
    } else {
        dashes((n - 1) as nat) + " | "@ + "---"@
    }
}

/// The separator row of a Markdown table of `n` columns: `| --- | … | --- |`.
pub open spec fn table_separator(n: nat) -> Seq<char> {
    "| "@ + dashes(n) + " |"@
}

/// The separator row of a Markdown table of `n` columns.
pub fn table_separator_line(n: usize) -> (r: Vec<char>)
    ensures
        r@ == table_separator(n as nat),
{
    let dash = chars_of("---");
    let bar = chars_of(" | ");
    let mut d: Vec<char> = Vec::new();
    if n >= 1 {
        extend_chars(&mut d, dash.as_slice());
        let mut k: usize = 1;
        assert(d@ =~= dashes(1));
        while k < n
            invariant
                1 <= k <= n,
                dash@ == "---"@,
                bar@ == " | "@,
                d@ == dashes(k as nat),
            decreases n - k,
        {
            extend_chars(&mut d, bar.as_slice());
            extend_chars(&mut d, dash.as_slice());
            k = k + 1;
            assert(d@ =~= dashes(k as nat));
        }
    }
    let mut out = chars_of("| ");
    extend_chars(&mut out, d.as_slice());
    let close = chars_of(" |");
    extend_chars(&mut out, close.as_slice());
    out
}

/// A line that, once trimmed, starts with `|`.
pub open spec fn is_table_row(l: Seq<char>) -> bool {
    trim_spec(l).len() > 0 && trim_spec(l)[0] == '|'
}

/// Whether `l` is a table row.
pub fn is_table_row_line(l: &[char]) -> (b: bool)
    ensures
        b == is_table_row(l@),
{
    let t = trim_chars(l);
    t.len() > 0 && t[0] == '|'
}

/// Index of the first table row among `ls`.
pub open spec fn first_table_row(ls: Seq<Seq<char>>) -> Option<int>
    decreases ls.len(),
{
    if ls.len() == 0 {
        None
    } else if is_table_row(ls[0]) {
        Some(0)
    } else {
        match first_table_row(ls.skip(1)) {
            Some(k) => Some(k + 1),
            None => None,
        }
    }
}

proof fn lemma_first_table_row_is(ls: Seq<Seq<char>>, k: int)
    requires
        0 <= k <= ls.len(),
        k < ls.len() ==> is_table_row(ls[k]),
        forall|t: int| 0 <= t < k ==> !is_table_row(#[trigger] ls[t]),
    ensures
        first_table_row(ls) == if k < ls.len() {
            Some(k)
        } else {
            None::<int>
        },
    decreases k,
{
    if k > 0 {
        assert forall|t: int| 0 <= t < k - 1 implies !is_table_row(#[trigger] ls.skip(1)[t]) by {
            assert(ls.skip(1)[t] == ls[t + 1]);
        }
        assert(!is_table_row(ls[0]));
        lemma_first_table_row_is(ls.skip(1), k - 1);
    }
}

/// Number of columns of a table row: its `|` characters less one, at least zero.
pub open spec fn column_count(l: Seq<char>) -> nat {
    if count_char_spec(l, '|') == 0 {
        0
    } else {
        (count_char_spec(l, '|') - 1) as nat
    }
}

/// `ls` with a separator row inserted after the first table row, unless that row
/// has no column or the line after it already holds `---`.
pub open spec fn with_separator(ls: Seq<Seq<char>>) -> Seq<Seq<char>> {
    match first_table_row(ls) {
        Some(h) => {
            let cols = column_count(ls[h]);
            let has_sep = h + 1 < ls.len() && contains_seq(ls[h + 1], "---"@);
            if cols > 0 && !has_sep {
                ls.insert(h + 1, table_separator(cols))
            } else {
                ls
            }
        },
        None => ls,
    }
}

proof fn lemma_separator_has_dashes(n: nat)
    requires
        n > 0,
    ensures
        contains_seq(table_separator(n), "---"@),
{
    reveal_strlit("---");
    reveal_strlit("| ");
    reveal_strlit(" | ");
    if n == 1 {
        assert(table_separator(n).subrange(2, 5) =~= "---"@);
        assert(occurs_at(table_separator(n), "---"@, 2));
    } else {
        let d = dashes((n - 1) as nat);
        assert(table_separator(n) =~= "| "@ + d + " | "@ + "---"@ + " |"@);
        let k: int = d.len() as int + 5;
        assert(table_separator(n).subrange(k, k + 3) =~= "---"@);
        assert(occurs_at(table_separator(n), "---"@, k));
    }
}

/// After the separator step, the first table row is followed by a line holding
/// `---` whenever that row has a column, and the rows before it are as they were.
pub proof fn law_separator_follows_header(ls: Seq<Seq<char>>)
    requires
        first_table_row(ls) is Some,
        column_count(ls[first_table_row(ls)->Some_0]) > 0,
    ensures
        ({
            let h = first_table_row(ls)->Some_0;
            let out = with_separator(ls);
            &&& h + 1 < out.len()
            &&& out.take(h + 1) == ls.take(h + 1)
            &&& contains_seq(out[h + 1], "---"@)
        }),
{
    let h = first_table_row(ls)->Some_0;
    lemma_first_table_row_bounds(ls);
    let cols = column_count(ls[h]);
    let has_sep = h + 1 < ls.len() && contains_seq(ls[h + 1], "---"@);
    if !has_sep {
        lemma_separator_has_dashes(cols);
        assert(ls.insert(h + 1, table_separator(cols)).take(h + 1) =~= ls.take(h + 1));
    }
}

proof fn lemma_first_table_row_bounds(ls: Seq<Seq<char>>)
    ensures
        match first_table_row(ls) {
            Some(h) => 0 <= h < ls.len() && is_table_row(ls[h]) && forall|t: int|
                0 <= t < h ==> !is_table_row(#[trigger] ls[t]),
            None => forall|t: int| 0 <= t < ls.len() ==> !is_table_row(#[trigger] ls[t]),
        },
    decreases ls.len(),
{
    if ls.len() > 0 && !is_table_row(ls[0]) {
        lemma_first_table_row_bounds(ls.skip(1));
        assert forall|t: int| 1 <= t < ls.len() && !is_table_row(ls.skip(1)[t - 1]) implies !is_table_row(
            #[trigger] ls[t],
        ) by {
            assert(ls.skip(1)[t - 1] == ls[t]);
        }
    }
}

/// The separator step adds a separator at most once: applied again, it changes
/// nothing.
pub proof fn law_separator_added_once(ls: Seq<Seq<char>>)
    ensures
        with_separator(with_separator(ls)) == with_separator(ls),
{
    lemma_first_table_row_bounds(ls);
    match first_table_row(ls) {
        Some(h) => {
            let cols = column_count(ls[h]);
            let has_sep = h + 1 < ls.len() && contains_seq(ls[h + 1], "---"@);
            if cols > 0 && !has_sep {
                let out = ls.insert(h + 1, table_separator(cols));
                assert forall|t: int| 0 <= t < h implies !is_table_row(#[trigger] out[t]) by {
                    assert(out[t] == ls[t]);
                }
                assert(out[h] == ls[h]);
                lemma_first_table_row_is(out, h);
                lemma_separator_has_dashes(cols);
                assert(out[h + 1] == table_separator(cols));
            }
        },
        None => {},
    }
}

/// `fix_markdown_table_separator`: a text of fewer than two lines is kept as it is;
/// otherwise its lines, with the separator row added, joined by line feeds.
pub open spec fn fix_table_separator_spec(md: Seq<char>) -> Seq<char> {
    let ls = lines_spec(md);
    if ls.len() < 2 {
        md
    } else {
        join_spec(with_separator(ls), "\n"@)
    }
}

proof fn lemma_join_lines(s: Seq<char>)
    requires
        !s.contains('\r'),
        s.len() > 0 ==> s.last() != '\n',
    ensures
        join_spec(lines_spec(s), "\n"@) == s,
        s.len() > 0 ==> lines_spec(s).len() > 0,
    decreases s.len(),
{
    reveal_strlit("\n");
    if s.len() > 0 {
        crate::text::lemma_line_end_bounds(s);
        let k = line_end(s);
        if k < s.len() {
            let rest = s.skip(k + 1);
            assert(k < s.len() - 1);
            assert(rest.last() == s.last());
            assert(!rest.contains('\r')) by {
                if rest.contains('\r') {
                    let i = choose|i: int| 0 <= i < rest.len() && rest[i] == '\r';
                    assert(s[k + 1 + i] == '\r');
                }
            }
            lemma_join_lines(rest);
            let head = s.take(k);
            if head.len() > 0 && head.last() == '\r' {
                assert(s[k - 1] == '\r');
            }
            assert(strip_cr(head) == head);
            let ls = lines_spec(s);
            assert(ls == seq![head] + lines_spec(rest));
            assert(ls[0] == head);
            assert(ls.skip(1) =~= lines_spec(rest));
            assert(head + "\n"@ + rest =~= s);
        }
    }
}

/// A text of two or more lines in which no line is a table row, with no carriage
/// return and no final line feed, passes the separator step unchanged.
pub proof fn law_separator_step_keeps_plain_text(md: Seq<char>)
    requires
        !md.contains('\r'),
        md.len() > 0 ==> md.last() != '\n',
        forall|i: int| 0 <= i < lines_spec(md).len() ==> !is_table_row(#[trigger] lines_spec(md)[i]),
    ensures
        fix_table_separator_spec(md) == md,
{
    let ls = lines_spec(md);
    if ls.len() >= 2 {
        lemma_first_table_row_is(ls, ls.len() as int);
        lemma_join_lines(md);
    }
}

/// No character of `l` is `c`.
pub open spec fn lacks_char(l: Seq<char>, c: char) -> bool {
    forall|j: int| 0 <= j < l.len() ==> l[j] != c
}

/// Lines as a text splits into: none holds a line feed or a carriage return, and
/// the last one is not empty.
pub open spec fn plain_lines(ls: Seq<Seq<char>>) -> bool {
    &&& ls.len() > 0
    &&& ls.last().len() > 0
    &&& forall|i: int|
        0 <= i < ls.len() ==> lacks_char(#[trigger] ls[i], '\n') && lacks_char(ls[i], '\r')
}

proof fn lemma_lines_are_plain(s: Seq<char>)
    requires
        lacks_char(s, '\r'),
        s.len() > 0,
        s.last() != '\n',
    ensures
        plain_lines(lines_spec(s)),
    decreases s.len(),
{
    crate::text::lemma_line_end_bounds(s);
    let k = line_end(s);
    let ls = lines_spec(s);
    if k < s.len() {
        let rest = s.skip(k + 1);
        assert(k < s.len() - 1);
        assert(rest.last() == s.last());
        assert(lacks_char(rest, '\r')) by {
            assert forall|j: int| 0 <= j < rest.len() implies rest[j] != '\r' by {
                assert(rest[j] == s[k + 1 + j]);
            }
        }
        lemma_lines_are_plain(rest);
        let head = s.take(k);
        assert(strip_cr(head) == head) by {
            if head.len() > 0 {
                assert(head.last() == s[k - 1]);
            }
        }
        assert(ls == seq![head] + lines_spec(rest));
        assert forall|i: int| 0 <= i < ls.len() implies lacks_char(#[trigger] ls[i], '\n') && lacks_char(
            ls[i],
            '\r',
        ) by {
            if i > 0 {
                assert(ls[i] == lines_spec(rest)[i - 1]);
            }
        }
    } else {
        assert(ls == seq![s]);
    }
}

#[verifier::spinoff_prover]
#[verifier::rlimit(40)]
proof fn lemma_lines_of_joined(ls: Seq<Seq<char>>)
    requires
        plain_lines(ls),
    ensures
        lines_spec(join_spec(ls, "\n"@)) == ls,
    decreases ls.len(),
{
    reveal_strlit("\n");
    let s = join_spec(ls, "\n"@);
    assert(lacks_char(ls[0], '\n') && lacks_char(ls[0], '\r'));
    if ls.len() == 1 {
        crate::text::lemma_line_end_is(s, s.len() as int);
        assert(lines_spec(s) =~= ls);
    } else {
        let tail = ls.skip(1);
        assert forall|i: int| 0 <= i < tail.len() implies lacks_char(#[trigger] tail[i], '\n') && lacks_char(
            tail[i],
            '\r',
        ) by {
            assert(tail[i] == ls[i + 1]);
        }
        assert(tail.last() == ls.last());
        lemma_lines_of_joined(tail);
        let k = ls[0].len() as int;
        assert(s == ls[0] + "\n"@ + join_spec(tail, "\n"@));
        assert(s[k] == '\n');
        crate::text::lemma_line_end_is(s, k);
        assert(s.take(k) =~= ls[0]);
        assert(s.skip(k + 1) =~= join_spec(tail, "\n"@));
        assert(strip_cr(ls[0]) == ls[0]) by {
            if ls[0].len() > 0 {
                assert(ls[0].last() == ls[0][ls[0].len() - 1]);
            }
        }
        assert(lines_spec(s) =~= ls);
    }
}

proof fn lemma_separator_is_plain(n: nat)
    ensures
        table_separator(n).len() > 0,
        lacks_char(table_separator(n), '\n'),
        lacks_char(table_separator(n), '\r'),
{
    reveal_strlit("| ");
    reveal_strlit(" |");
    lemma_dashes_are_plain(n);
    let t = table_separator(n);
    assert forall|j: int| 0 <= j < t.len() implies t[j] != '\n' && t[j] != '\r' by {
        if 2 <= j < 2 + dashes(n).len() {
            assert(t[j] == dashes(n)[j - 2]);
        }
    }
}

proof fn lemma_dashes_are_plain(n: nat)
    ensures
        lacks_char(dashes(n), '\n'),
        lacks_char(dashes(n), '\r'),
    decreases n,
{
    reveal_strlit("---");
    reveal_strlit(" | ");
    if n > 1 {
        lemma_dashes_are_plain((n - 1) as nat);
        let d = dashes((n - 1) as nat);
        assert forall|j: int| 0 <= j < dashes(n).len() implies dashes(n)[j] != '\n' && dashes(n)[j]
            != '\r' by {
            if j < d.len() {
                assert(dashes(n)[j] == d[j]);
            }
        }
    }
}

proof fn lemma_with_separator_is_plain(ls: Seq<Seq<char>>)
    requires
        plain_lines(ls),
    ensures
        plain_lines(with_separator(ls)),
        with_separator(ls).len() >= ls.len(),
{
    lemma_first_table_row_bounds(ls);
    match first_table_row(ls) {
        Some(h) => {
            let cols = column_count(ls[h]);
            let has_sep = h + 1 < ls.len() && contains_seq(ls[h + 1], "---"@);
            if cols > 0 && !has_sep {
                let sep = table_separator(cols);
                let out = ls.insert(h + 1, sep);
                lemma_separator_is_plain(cols);
                assert forall|i: int| 0 <= i < out.len() implies lacks_char(#[trigger] out[i], '\n')
                    && lacks_char(out[i], '\r') by {
                    if i <= h {
                        assert(out[i] == ls[i]);
                    } else if i > h + 1 {
                        assert(out[i] == ls[i - 1]);
                    }
                }
                if h + 1 < ls.len() {
                    assert(out.last() == ls.last());
                }
            }
        },
        None => {},
    }
}

/// The separator step applied to its own output changes nothing, for a text with
/// no carriage return that does not end in a line feed.
pub proof fn law_fix_table_separator_idempotent(md: Seq<char>)
    requires
        !md.contains('\r'),
        !(md.len() > 0 && md.last() == '\n'),
    ensures
        fix_table_separator_spec(fix_table_separator_spec(md)) == fix_table_separator_spec(md),
{
    let ls = lines_spec(md);
    if ls.len() >= 2 {
        assert(lacks_char(md, '\r')) by {
            assert forall|j: int| 0 <= j < md.len() implies md[j] != '\r' by {
                if md[j] == '\r' {
                    assert(md.contains('\r'));
                }
            }
        }
        lemma_lines_are_plain(md);
        lemma_with_separator_is_plain(ls);
        let w = with_separator(ls);
        lemma_lines_of_joined(w);
        law_separator_added_once(ls);
    }
}

/// Adds the missing separator row under the header row of the first Markdown table.
pub fn fix_markdown_table_separator(md: &[char]) -> (r: Vec<char>)
    ensures
        r@ == fix_table_separator_spec(md@),
{
    let mut lines = lines_of(md);
    let ghost ls = lines_spec(md@);
    let n: usize = lines.len();
    if n < 2 {
        return sub_chars(md, 0, md.len());
    }
    assert(ls.len() == n);
    let mut h: usize = 0;
    while h < n && !is_table_row_line(lines[h].as_slice())
        invariant
            h <= n,
            n == lines@.len(),
            views(lines@) == ls,
            forall|t: int| 0 <= t < h ==> !is_table_row(#[trigger] ls[t]),
        decreases n - h,
    {
        assert(views(lines@)[h as int] == lines@[h as int]@);
        h = h + 1;
    }
    proof {
        if h < n {
            assert(views(lines@)[h as int] == lines@[h as int]@);
        }
        lemma_first_table_row_is(ls, h as int);
    }
    if h < n {
        assert(views(lines@)[h as int] == lines@[h as int]@);
        let bars: usize = count_char(lines[h].as_slice(), '|');
        let cols: usize = if bars == 0 {
            0
        } else {
            bars - 1
        };
        if cols > 0 {
            let dash = chars_of("---");
            let has_sep: bool = h + 1 < n && contains_chars(lines[h + 1].as_slice(), dash.as_slice());
            if h + 1 < n {
                assert(views(lines@)[h + 1] == lines@[h + 1]@);
            }
            if !has_sep {
                let sep = table_separator_line(cols);
                lines.insert(h + 1, sep);
                assert(views(lines@) =~= ls.insert(h + 1, table_separator(cols as nat)));
            }
        }
    }
    let lf = chars_of("\n");
    join_with(&lines, lf.as_slice())
}

/// What separates two consecutive lines of the rendered text: one line feed between
/// two table rows (lines that start with `|`), a blank line otherwise.
pub open spec fn line_gap(a: Seq<char>, b: Seq<char>) -> Seq<char> {
    if a.len() > 0 && a[0] == '|' && b.len() > 0 && b[0] == '|' {
        "\n"@
    } else {
        "\n\n"@
    }
}

/// The lines `ls` joined, each two separated by their [`line_gap`].
pub open spec fn md_join(ls: Seq<Seq<char>>) -> Seq<char>
    decreases ls.len(),
{
    if ls.len() == 0 {
        seq![]
    } else if ls.len() == 1 {
        ls[0]
    } else {
        ls[0] + line_gap(ls[0], ls[1]) + md_join(ls.skip(1))
    }
}

/// Joins lines as [`md_join`] says.
pub fn join_markdown_lines(ls: &Vec<Vec<char>>) -> (r: Vec<char>)
    ensures
        r@ == md_join(views(ls@)),
{
    let n: usize = ls.len();
    let ghost v = views(ls@);
    let lf = chars_of("\n");
    let lflf = chars_of("\n\n");
    let mut out: Vec<char> = Vec::new();
    assert(v.skip(0) =~= v);
    for i in 0..n
        invariant
            n == ls@.len(),
            v == views(ls@),
            lf@ == "\n"@,
            lflf@ == "\n\n"@,
            out@ + md_join(v.skip(i as int)) == md_join(v),
    {
        let ghost before = out@;
        assert(v[i as int] == ls@[i as int]@);
        assert(v.skip(i as int)[0] == v[i as int]);
        assert(v.skip(i as int).skip(1) =~= v.skip(i + 1));
        extend_chars(&mut out, ls[i].as_slice());
        if i + 1 < n {
            assert(v[i + 1] == ls@[i + 1]@);
            assert(v.skip(i as int)[1] == v[i + 1]);
            let a = &ls[i];
            let b = &ls[i + 1];
            if a.len() > 0 && a[0] == '|' && b.len() > 0 && b[0] == '|' {
                extend_chars(&mut out, lf.as_slice());
            } else {
                extend_chars(&mut out, lflf.as_slice());
            }
            assert(before + (v[i as int] + line_gap(v[i as int], v[i + 1]) + md_join(v.skip(i + 1)))
                =~= out@ + md_join(v.skip(i + 1)));
        } else {
            assert(v.skip(i + 1) =~= Seq::<Seq<char>>::empty());
            assert(out@ + md_join(v.skip(i + 1)) =~= out@);
        }
    }
    assert(v.skip(n as int) =~= Seq::<Seq<char>>::empty());
    assert(out@ + md_join(v.skip(n as int)) =~= out@);
    out
}

/// One line of the rendered text tidied: trimmed, `&nbsp;` and no-break spaces made
/// plain spaces, runs of spaces and tabs collapsed into one space.
pub open spec fn clean_line(l: Seq<char>) -> Seq<char> {
    collapse_blanks_spec(
        replace_spec(replace_spec(trim_spec(l), "&nbsp;"@, " "@), "\u{a0}"@, " "@),
    )
}

/// The tidied lines of `ls` ([`clean_line`]), the empty ones dropped.
pub open spec fn pretty_lines(ls: Seq<Seq<char>>) -> Seq<Seq<char>>
    decreases ls.len(),
{
    if ls.len() == 0 {
        seq![]
    } else {
        let c = clean_line(ls[0]);
        if c.len() > 0 {
            seq![c] + pretty_lines(ls.skip(1))
        } else {
            pretty_lines(ls.skip(1))
        }
    }
}

/// Tidies the lines of `text` and drops the empty ones.
pub fn tidy_lines(text: &[char]) -> (r: Vec<Vec<char>>)
    ensures
        views(r@) == pretty_lines(lines_spec(text@)),
{
    let lines = lines_of(text);
    let ghost ls = views(lines@);
    let n: usize = lines.len();
    let nbsp = chars_of("&nbsp;");
    let space = chars_of(" ");
    let nbsp_char = chars_of("\u{a0}");
    let mut out: Vec<Vec<char>> = Vec::new();
    assert(ls.skip(0) =~= ls);
    for i in 0..n
        invariant
            n == lines@.len(),
            ls == views(lines@),
            nbsp@ == "&nbsp;"@,
            space@ == " "@,
            nbsp_char@ == "\u{a0}"@,
            views(out@) + pretty_lines(ls.skip(i as int)) == pretty_lines(ls),
    {
        let ghost before = views(out@);
        assert(ls[i as int] == lines@[i as int]@);
        assert(ls.skip(i as int)[0] == ls[i as int]);
        assert(ls.skip(i as int).skip(1) =~= ls.skip(i + 1));
        let t = trim_chars(lines[i].as_slice());
        let a = replace_chars(t.as_slice(), nbsp.as_slice(), space.as_slice());
        let b = replace_chars(a.as_slice(), nbsp_char.as_slice(), space.as_slice());
        let c = collapse_blanks(b.as_slice());
        if c.len() > 0 {
            out.push(c);
            assert(views(out@) =~= before.push(c@));
            assert(before + (seq![c@] + pretty_lines(ls.skip(i + 1))) =~= views(out@) + pretty_lines(
                ls.skip(i + 1),
            ));
        }
    }
    assert(ls.skip(n as int) =~= Seq::<Seq<char>>::empty());
    assert(views(out@) + pretty_lines(ls.skip(n as int)) =~= views(out@));
    out
}

} // verus!
