//! The text of an article: its HTML rendered as Markdown and tidied, links made
//! absolute, and, on request, tables with merged cells kept as cleaned HTML.
use vstd::prelude::*;

use crate::html::{
    css_selector_valid, html_to_markdown, markdown_of, select_tables, tables_of, AttrPairView,
};
use crate::markdown::{
    clean_markdown, clean_markdown_spec, fix_markdown_table_separator, fix_table_separator_spec,
    join_markdown_lines, md_join, pretty_lines, tidy_lines,
};
use crate::pattern::{
    split_by_pattern, MatchView, RegexMatch, EMPTY_ATTRIBUTE_PATTERN, HTML_ATTRIBUTE_PATTERN,
    MARKDOWN_LINK_PATTERN,
};
use crate::text::{
    chars_eq, chars_of, contains_chars, contains_seq, decimal_spec, decimal_u64, extend_chars,
    lines_spec, replace_chars, replace_spec, string_of, trim_chars, trim_spec,
};
use crate::web::{join_url, joined_url};

verus! {

/// The matches `ms`, each preceded by the text before it and replaced by `f` of it.
pub open spec fn rebuild(ms: Seq<MatchView>, f: spec_fn(MatchView) -> Seq<char>) -> Seq<char>
    decreases ms.len(),
{
    if ms.len() == 0 {
        seq![]
    } else {
        ms[0].0 + f(ms[0]) + rebuild(ms.skip(1), f)
    }
}

proof fn lemma_rebuild_push(ms: Seq<MatchView>, f: spec_fn(MatchView) -> Seq<char>, i: int)
    requires
        0 <= i < ms.len(),
    ensures
        rebuild(ms.take(i + 1), f) == rebuild(ms.take(i), f) + ms[i].0 + f(ms[i]),
    decreases i,
{
    if i == 0 {
        assert(ms.take(1).skip(1) =~= Seq::<MatchView>::empty());
        assert(ms.take(0) =~= Seq::<MatchView>::empty());
        assert(ms.take(1)[0] == ms[0]);
        assert(rebuild(ms.take(1).skip(1), f) == Seq::<char>::empty());
        assert(rebuild(ms.take(0), f) == Seq::<char>::empty());
        assert(rebuild(ms.take(1), f) =~= ms[0].0 + f(ms[0]));
    } else {
        lemma_rebuild_push(ms.skip(1), f, i - 1);
        assert(ms.skip(1).take(i) =~= ms.take(i + 1).skip(1));
        assert(ms.skip(1).take(i - 1) =~= ms.take(i).skip(1));
        assert(ms.take(i + 1)[0] == ms[0]);
        assert(ms.take(i)[0] == ms[0]);
        assert(ms.skip(1)[i - 1] == ms[i]);
    }
}

/// What replaces a Markdown link whose label is `p` and whose target is `u`: the
/// target resolved against `base`; the link dropped when the resolved target holds
/// `icon_`; the link kept with its target as written where it does not resolve.
/// Any title after the target is dropped.
pub open spec fn link_replacement(m: MatchView, base: Seq<char>) -> Seq<char> {
    if m.2.len() >= 2 && m.2[0] is Some && m.2[1] is Some {
        let p = m.2[0]->Some_0;
        let u = m.2[1]->Some_0;
        match joined_url(base, u) {
            Some(abs) => if contains_seq(abs, "icon_"@) {
                seq![]
            } else {
                p + "("@ + abs + ")"@
            },
            None => p + "("@ + u + ")"@,
        }
    } else {
        m.1
    }
}

/// `fix_markdown_links`: every Markdown link of `md` rewritten by
/// [`link_replacement`], the rest of `md` kept.
pub open spec fn fix_links_spec(md: Seq<char>, base: Seq<char>) -> Seq<char> {
    let split = crate::pattern::regex_split(MARKDOWN_LINK_PATTERN@, md);
    rebuild(split.0, |m: MatchView| link_replacement(m, base)) + split.1
}

fn link_replacement_of(m: &RegexMatch, base: &str) -> (r: Vec<char>)
    ensures
        r@ == link_replacement(m.view(), base@),
{
    let ghost mv = m.view();
    if m.groups.len() >= 2 {
        assert(mv.2[0] == crate::web::opt_view(m.groups@[0]));
        assert(mv.2[1] == crate::web::opt_view(m.groups@[1]));
        match (&m.groups[0], &m.groups[1]) {
            (Some(p), Some(u)) => {
                let mut out = chars_of(p.as_str());
                let open = chars_of("(");
                let close = chars_of(")");
                match join_url(base, u.as_str()) {
                    Some(abs) => {
                        let a = chars_of(abs.as_str());
                        let icon = chars_of("icon_");
                        if contains_chars(a.as_slice(), icon.as_slice()) {
                            return Vec::new();
                        }
                        extend_chars(&mut out, open.as_slice());
                        extend_chars(&mut out, a.as_slice());
                        extend_chars(&mut out, close.as_slice());
                    },
                    None => {
                        let uc = chars_of(u.as_str());
                        extend_chars(&mut out, open.as_slice());
                        extend_chars(&mut out, uc.as_slice());
                        extend_chars(&mut out, close.as_slice());
                    },
                }
                out
            },
            _ => chars_of(m.whole.as_str()),
        }
    } else {
        chars_of(m.whole.as_str())
    }
}

/// Makes the targets of the Markdown links of `md` absolute against `base`.
pub fn fix_markdown_links(md: &str, base: &str) -> (r: Vec<char>)
    ensures
        r@ == fix_links_spec(md@, base@),
        crate::pattern::regex_split(MARKDOWN_LINK_PATTERN@, md@).0.len() == 0 ==> r@ == md@,
{
    let split = split_by_pattern(MARKDOWN_LINK_PATTERN, md);
    let ghost ms = split.view().0;
    let ghost f = |m: MatchView| link_replacement(m, base@);
    let n: usize = split.matches.len();
    let mut out: Vec<char> = Vec::new();
    for i in 0..n
        invariant
            n == split.matches@.len(),
            ms == split.view().0,
            f == (|m: MatchView| link_replacement(m, base@)),
            out@ == rebuild(ms.take(i as int), f),
    {
        let m = &split.matches[i];
        assert(ms[i as int] == m.view());
        proof {
            lemma_rebuild_push(ms, f, i as int);
        }
        let b = chars_of(m.before.as_str());
        extend_chars(&mut out, b.as_slice());
        let rep = link_replacement_of(m, base);
        extend_chars(&mut out, rep.as_slice());
    }
    assert(ms.take(n as int) =~= ms);
    let t = chars_of(split.tail.as_str());
    extend_chars(&mut out, t.as_slice());
    assert(n == 0 ==> out@ =~= t@);
    out
}


/// The attributes that a cleaned table keeps.
pub open spec fn allowed_attribute(name: Seq<char>) -> bool {
    ||| name == "rowspan"@
    ||| name == "colspan"@
    ||| name == "valign"@
    ||| name == "align"@
    ||| name == "href"@
    ||| name == "src"@
    ||| name == "alt"@
    ||| name == "title"@
    ||| name == "width"@
    ||| name == "height"@
}

/// An attribute match kept when its name is allowed, dropped otherwise.
pub open spec fn attribute_replacement(m: MatchView) -> Seq<char> {
    if m.2.len() >= 1 && m.2[0] is Some && allowed_attribute(m.2[0]->Some_0) {
        m.1
    } else {
        seq![]
    }
}

/// `clean_html_table`: attributes other than the allowed ones removed, each empty
/// attribute with its neighbouring white space made one space, the result trimmed.
pub open spec fn clean_table_spec(html: Seq<char>) -> Seq<char> {
    let first = crate::pattern::regex_split(HTML_ATTRIBUTE_PATTERN@, html);
    let kept = rebuild(first.0, |m: MatchView| attribute_replacement(m)) + first.1;
    let second = crate::pattern::regex_split(EMPTY_ATTRIBUTE_PATTERN@, kept);
    trim_spec(rebuild(second.0, |m: MatchView| " "@) + second.1)
}

fn is_allowed_attribute(name: &str) -> (b: bool)
    ensures
        b == allowed_attribute(name@),
{
    let n = chars_of(name);
    chars_eq(n.as_slice(), chars_of("rowspan").as_slice()) || chars_eq(
        n.as_slice(),
        chars_of("colspan").as_slice(),
    ) || chars_eq(n.as_slice(), chars_of("valign").as_slice()) || chars_eq(
        n.as_slice(),
        chars_of("align").as_slice(),
    ) || chars_eq(n.as_slice(), chars_of("href").as_slice()) || chars_eq(
        n.as_slice(),
        chars_of("src").as_slice(),
    ) || chars_eq(n.as_slice(), chars_of("alt").as_slice()) || chars_eq(
        n.as_slice(),
        chars_of("title").as_slice(),
    ) || chars_eq(n.as_slice(), chars_of("width").as_slice()) || chars_eq(
        n.as_slice(),
        chars_of("height").as_slice(),
    )
}

fn attribute_replacement_of(m: &RegexMatch) -> (r: Vec<char>)
    ensures
        r@ == attribute_replacement(m.view()),
{
    if m.groups.len() >= 1 {
        assert(m.view().2[0] == crate::web::opt_view(m.groups@[0]));
        match &m.groups[0] {
            Some(name) => {
                if is_allowed_attribute(name.as_str()) {
                    return chars_of(m.whole.as_str());
                }
            },
            None => {},
        }
    }
    Vec::new()
}

/// Cleans the HTML of a table: keeps only the allowed attributes (see
/// [`clean_table_spec`]).
pub fn clean_html_table(html: &str) -> (r: Vec<char>)
    ensures
        r@ == clean_table_spec(html@),
{
    let first = split_by_pattern(HTML_ATTRIBUTE_PATTERN, html);
    let ghost ms = first.view().0;
    let ghost f = |m: MatchView| attribute_replacement(m);
    let n: usize = first.matches.len();
    let mut out: Vec<char> = Vec::new();
    for i in 0..n
        invariant
            n == first.matches@.len(),
            ms == first.view().0,
            f == (|m: MatchView| attribute_replacement(m)),
            out@ == rebuild(ms.take(i as int), f),
    {
        let m = &first.matches[i];
        assert(ms[i as int] == m.view());
        proof {
            lemma_rebuild_push(ms, f, i as int);
        }
        let b = chars_of(m.before.as_str());
        extend_chars(&mut out, b.as_slice());
        let rep = attribute_replacement_of(m);
        extend_chars(&mut out, rep.as_slice());
    }
    assert(ms.take(n as int) =~= ms);
    let t = chars_of(first.tail.as_str());
    extend_chars(&mut out, t.as_slice());
    let kept = string_of(out.as_slice());
    let second = split_by_pattern(EMPTY_ATTRIBUTE_PATTERN, kept.as_str());
    let ghost ms2 = second.view().0;
    let ghost g = |m: MatchView| " "@;
    let n2: usize = second.matches.len();
    let space = chars_of(" ");
    let mut out2: Vec<char> = Vec::new();
    for i in 0..n2
        invariant
            n2 == second.matches@.len(),
            ms2 == second.view().0,
            g == (|m: MatchView| " "@),
            space@ == " "@,
            out2@ == rebuild(ms2.take(i as int), g),
    {
        let m = &second.matches[i];
        assert(ms2[i as int] == m.view());
        proof {
            lemma_rebuild_push(ms2, g, i as int);
        }
        let b = chars_of(m.before.as_str());
        extend_chars(&mut out2, b.as_slice());
        extend_chars(&mut out2, space.as_slice());
    }
    assert(ms2.take(n2 as int) =~= ms2);
    let t2 = chars_of(second.tail.as_str());
    extend_chars(&mut out2, t2.as_slice());
    trim_chars(out2.as_slice())
}

/// The placeholder that stands for the `idx`-th complex table while the rest of
/// the article is rendered.
pub open spec fn placeholder(idx: nat) -> Seq<char> {
    "__TABLE_PLACEHOLDER_"@ + decimal_spec(idx) + "__"@
}

/// A table with a cell that spans rows or columns.
pub open spec fn has_span_cell(cells: Seq<AttrPairView>) -> bool {
    exists|i: int| 0 <= i < cells.len() && (cells[i].0 is Some || cells[i].1 is Some)
}

/// Each table among `tables` that has a spanning cell, from left to right: its
/// HTML replaced in `work` by the next placeholder (numbered from `idx`), and the
/// placeholder paired with the cleaned table.
pub open spec fn placeholders_from(
    tables: Seq<(Seq<char>, Seq<AttrPairView>)>,
    idx: nat,
    work: Seq<char>,
) -> (Seq<char>, Seq<(Seq<char>, Seq<char>)>)
    decreases tables.len(),
{
    if tables.len() == 0 {
        (work, seq![])
    } else if has_span_cell(tables[0].1) {
        let ph = placeholder(idx);
        let rest = placeholders_from(
            tables.skip(1),
            idx + 1,
            replace_spec(work, tables[0].0, ph),
        );
        (rest.0, seq![(ph, clean_table_spec(tables[0].0))] + rest.1)
    } else {
        placeholders_from(tables.skip(1), idx, work)
    }
}

/// `replace_complex_tables_with_placeholders`: the tables of the document `html`
/// with a spanning cell replaced by placeholders, with the list of placeholders and
/// cleaned tables.
pub open spec fn complex_tables_spec(html: Seq<char>) -> (Seq<char>, Seq<(Seq<char>, Seq<char>)>) {
    placeholders_from(tables_of(html), 0, html)
}

fn has_span_cell_of(t: &crate::html::TableData) -> (b: bool)
    ensures
        b == has_span_cell(t.view().1),
{
    let n: usize = t.cells.len();
    let ghost cells = t.view().1;
    for i in 0..n
        invariant
            n == t.cells@.len(),
            cells == t.view().1,
            forall|j: int| 0 <= j < i ==> !(cells[j].0 is Some || cells[j].1 is Some),
    {
        assert(cells[i as int] == crate::html::pair_view(t.cells@[i as int]));
        if t.cells[i].0.is_some() || t.cells[i].1.is_some() {
            return true;
        }
    }
    false
}

/// Placeholder text for the table numbered `idx`.
pub fn placeholder_text(idx: usize) -> (r: Vec<char>)
    ensures
        r@ == placeholder(idx as nat),
{
    let mut out = chars_of("__TABLE_PLACEHOLDER_");
    let d = decimal_u64(idx as u64);
    extend_chars(&mut out, d.as_slice());
    let close = chars_of("__");
    extend_chars(&mut out, close.as_slice());
    out
}

/// Replaces the tables of `html` that have a spanning cell by placeholders, and
/// returns the placeholders with the cleaned tables they stand for.
pub fn replace_complex_tables_with_placeholders(html: &str) -> (r: (String, Vec<(String, String)>))
    ensures
        (r.0@, r.1@.map_values(|p: (String, String)| (p.0@, p.1@))) == complex_tables_spec(html@),
{
    let tables = select_tables(html);
    let ghost ts = tables@.map_values(|t: crate::html::TableData| t.view());
    let n: usize = tables.len();
    let mut work = chars_of(html);
    let mut reps: Vec<(String, String)> = Vec::new();
    let mut idx: usize = 0;
    assert(ts.skip(0) =~= ts);
    for i in 0..n
        invariant
            n == tables@.len(),
            ts == tables@.map_values(|t: crate::html::TableData| t.view()),
            ts == tables_of(html@),
            idx <= i,
            ({
                let rest = placeholders_from(ts.skip(i as int), idx as nat, work@);
                (rest.0, reps@.map_values(|p: (String, String)| (p.0@, p.1@)) + rest.1)
                    == complex_tables_spec(html@)
            }),
    {
        let t = &tables[i];
        assert(ts[i as int] == t.view());
        assert(ts.skip(i as int)[0] == ts[i as int]);
        assert(ts.skip(i as int).skip(1) =~= ts.skip(i + 1));
        let ghost old_reps = reps@.map_values(|p: (String, String)| (p.0@, p.1@));
        if has_span_cell_of(t) {
            let ph = placeholder_text(idx);
            let cleaned = clean_html_table(t.html.as_str());
            let table_chars = chars_of(t.html.as_str());
            work = replace_chars(work.as_slice(), table_chars.as_slice(), ph.as_slice());
            reps.push((string_of(ph.as_slice()), string_of(cleaned.as_slice())));
            idx = idx + 1;
            assert(reps@.map_values(|p: (String, String)| (p.0@, p.1@)) =~= old_reps.push(
                (placeholder((idx - 1) as nat), clean_table_spec(ts[i as int].0)),
            ));
            let ghost rest = placeholders_from(ts.skip(i + 1), idx as nat, work@);
            assert(old_reps + (seq![(placeholder((idx - 1) as nat), clean_table_spec(ts[i as int].0))]
                + rest.1) =~= reps@.map_values(|p: (String, String)| (p.0@, p.1@)) + rest.1);
        }
    }
    assert(ts.skip(n as int) =~= Seq::<(Seq<char>, Seq<AttrPairView>)>::empty());
    assert(reps@.map_values(|p: (String, String)| (p.0@, p.1@)) + seq![] =~= reps@.map_values(
        |p: (String, String)| (p.0@, p.1@),
    ));
    (string_of(work.as_slice()), reps)
}


/// `&nbsp;` and `&#160;` made plain spaces, before the HTML is rendered.
pub open spec fn pre_clean(html: Seq<char>) -> Seq<char> {
    replace_spec(replace_spec(html, "&nbsp;"@, " "@), "&#160;"@, " "@)
}

/// The Markdown that `htmd` renders of `html`, or nothing where it fails.
pub open spec fn markdown_or_empty(html: Seq<char>) -> Seq<char> {
    match markdown_of(html) {
        Some(md) => md,
        None => seq![],
    }
}

/// The tidied text of the raw Markdown `raw`: links made absolute against `base`,
/// adjacent table rows split onto their own lines, lines tidied and joined, the
/// table separator added and the bold markers cleaned.
pub open spec fn render_markdown(raw: Seq<char>, base: Seq<char>) -> Seq<char> {
    let cleaned = replace_spec(fix_links_spec(raw, base), "||"@, "|\n|"@);
    clean_markdown_spec(fix_table_separator_spec(md_join(pretty_lines(lines_spec(cleaned)))))
}

/// `get_pretty_text`: the tidied Markdown of the HTML fragment `fragment`, its
/// links resolved against `base`.
pub open spec fn pretty_text_spec(fragment: Seq<char>, base: Seq<char>) -> Seq<char> {
    render_markdown(markdown_or_empty(pre_clean(fragment)), base)
}

/// `md` with each placeholder of `reps`, in order, replaced by its table.
pub open spec fn restore_tables(md: Seq<char>, reps: Seq<(Seq<char>, Seq<char>)>) -> Seq<char>
    decreases reps.len(),
{
    if reps.len() == 0 {
        md
    } else {
        restore_tables(replace_spec(md, reps[0].0, reps[0].1), reps.skip(1))
    }
}

/// `get_pretty_text_with_complex_tables`: as [`pretty_text_spec`], except that
/// tables with spanning cells are kept as cleaned HTML.
pub open spec fn pretty_text_with_tables_spec(fragment: Seq<char>, base: Seq<char>) -> Seq<char> {
    let split = complex_tables_spec(pre_clean(fragment));
    restore_tables(render_markdown(markdown_or_empty(split.0), base), split.1)
}

fn pre_clean_html(html: &str) -> (r: String)
    ensures
        r@ == pre_clean(html@),
{
    let h = chars_of(html);
    let space = chars_of(" ");
    let a = replace_chars(h.as_slice(), chars_of("&nbsp;").as_slice(), space.as_slice());
    let b = replace_chars(a.as_slice(), chars_of("&#160;").as_slice(), space.as_slice());
    string_of(b.as_slice())
}

fn markdown_text(html: &str) -> (r: String)
    ensures
        r@ == markdown_or_empty(html@),
{
    match html_to_markdown(html) {
        Some(md) => md,
        None => String::new(),
    }
}

fn render(raw: &str, base: &str) -> (r: Vec<char>)
    ensures
        r@ == render_markdown(raw@, base@),
{
    let fixed = fix_markdown_links(raw, base);
    let cleaned = replace_chars(fixed.as_slice(), chars_of("||").as_slice(), chars_of("|\n|").as_slice());
    let lines = tidy_lines(cleaned.as_slice());
    let joined = join_markdown_lines(&lines);
    let sep = fix_markdown_table_separator(joined.as_slice());
    clean_markdown(sep.as_slice())
}

/// The tidied Markdown text of the HTML fragment `fragment`, with its links resolved
/// against the URL `base`.
pub fn get_pretty_text(fragment: &str, base: &str) -> (r: String)
    ensures
        r@ == pretty_text_spec(fragment@, base@),
{
    let pre = pre_clean_html(fragment);
    let raw = markdown_text(pre.as_str());
    let out = render(raw.as_str(), base);
    string_of(out.as_slice())
}

/// As [`get_pretty_text`], with the tables that have spanning cells kept as cleaned
/// HTML in place of their Markdown rendering.
pub fn get_pretty_text_with_complex_tables(fragment: &str, base: &str) -> (r: String)
    ensures
        r@ == pretty_text_with_tables_spec(fragment@, base@),
{
    let pre = pre_clean_html(fragment);
    let (processed, reps) = replace_complex_tables_with_placeholders(pre.as_str());
    let ghost rv = reps@.map_values(|p: (String, String)| (p.0@, p.1@));
    let raw = markdown_text(processed.as_str());
    let mut result = render(raw.as_str(), base);
    let n: usize = reps.len();
    assert(rv.skip(0) =~= rv);
    for i in 0..n
        invariant
            n == reps@.len(),
            rv == reps@.map_values(|p: (String, String)| (p.0@, p.1@)),
            restore_tables(result@, rv.skip(i as int)) == pretty_text_with_tables_spec(
                fragment@,
                base@,
            ),
    {
        assert(rv.skip(i as int)[0] == rv[i as int]);
        assert(rv.skip(i as int).skip(1) =~= rv.skip(i + 1));
        let ph = chars_of(reps[i].0.as_str());
        let table = chars_of(reps[i].1.as_str());
        result = replace_chars(result.as_slice(), ph.as_slice(), table.as_slice());
    }
    assert(rv.skip(n as int) =~= Seq::<(Seq<char>, Seq<char>)>::empty());
    string_of(result.as_slice())
}

} // verus!
