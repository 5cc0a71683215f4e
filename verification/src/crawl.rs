//! The crawler: what it reads from list pages and article pages, and the order
//! in which it visits the pages of each category.
use vstd::prelude::*;

use crate::article::{
    get_pretty_text, get_pretty_text_with_complex_tables, pretty_text_spec,
    pretty_text_with_tables_spec,
};
use crate::date::{date_before, date_of, parse_ymd, ymd_of, Date};
use crate::digest::{generate_key, key_spec};
use crate::html::{
    css_selector_valid, first_element_of, first_text_of, list_rows_of, select_first_element,
    select_first_text, select_list_rows, selector_is_valid, AttrPair, AttrPairView, RowFields,
    RowFieldsView,
};
use crate::sorted::{insert_sorted_unique, strictly_sorted, string_views};
use crate::text::{
    chars_eq, chars_of, decimal_i64, ends_with_chars, extend_chars, int_decimal, owned, parse_i32,
    parse_i32_spec, replace_chars, replace_spec, starts_with_chars, string_of, to_lowercase,
    lowercase_of, trim_chars, trim_spec,
};
use crate::web::{join_url, joined_url, parse_url, parsed_url};

pub mod cs;
pub mod jwc;
pub mod xsxy;

verus! {

/// One news item of a site.
#[derive(Debug)]
pub struct NewsItem {
    /// The key of the item: the SHA-256 digest of `detail_url` in hexadecimal.
    pub id: String,
    /// The label of the category the item was listed under.
    pub label: String,
    pub title: String,
    pub date: Date,
    pub detail_url: String,
    /// The item is a web page, not a file to download.
    pub is_page: bool,
    pub content: Option<Content>,
}

/// The content of an article page.
#[derive(Debug)]
pub struct Content {
    /// The article as tidied Markdown.
    pub text: String,
    /// The absolute URLs of the attached files, sorted, each once.
    pub attachment_urls: Vec<String>,
}

/// A category of news: its label and the path of its first list page.
#[derive(Clone, PartialEq, Eq, Hash)]
pub struct Category {
    pub label: String,
    pub path: String,
}

/// What one list page gave: its news items, and whether a next page follows.
pub struct FetchStatus {
    pub news_items: Vec<NewsItem>,
    pub has_next_page: bool,
}

/// A site: its address, its categories and how its pages are laid out.
#[derive(Clone)]
pub struct SiteConfig {
    pub name: String,
    pub base_url: String,
    pub categories: Vec<Category>,
    pub selectors: SelectionConfig,
}

/// The CSS selectors that find things on a site's pages.
#[derive(Clone)]
pub struct SelectionConfig {
    /// A row of a list page.
    pub list_row: String,
    /// The link to the article, inside a row.
    pub list_title_link: String,
    /// The date, inside a row.
    pub list_date: String,
    /// The body of an article page.
    pub content_body: String,
    /// The number of the current list page.
    pub current_page: String,
    /// The number of list pages.
    pub all_pages: String,
}

/// A crawler of one site.
pub struct Crawler {
    pub config: SiteConfig,
    /// File name endings that mark a link as an attachment.
    pub attachment_extensions: Vec<String>,
    /// Keep tables with spanning cells as HTML in article texts.
    pub keep_complex_tables: bool,
}

/// Why a crawl step failed.
#[derive(Debug)]
pub enum CrawlError {
    /// The page address is not a URL.
    InvalidUrl,
    /// The article page has no element that matches the content selector.
    ContentNotFound,
    /// No site is known under this name.
    UnsupportedDataSource(String),
    /// This date is not of the form year-month-day.
    InvalidDate(String),
}

/// The attachment endings that a new crawler starts with.
pub open spec fn default_extensions() -> Seq<Seq<char>> {
    seq![".pdf"@, ".docx"@, ".doc"@, ".xlsx"@, ".xls"@, ".zip"@, ".rar"@]
}

/// `url` ends, once lowercased, with one of the endings `exts`.
pub open spec fn is_attachment(url: Seq<char>, exts: Seq<Seq<char>>) -> bool {
    exists|i: int| 0 <= i < exts.len() && exts[i].is_suffix_of(lowercase_of(url))
}

/// The values that are present, in order.
pub open spec fn present(o: Option<Seq<char>>) -> Seq<Seq<char>> {
    match o {
        Some(x) => seq![x],
        None => seq![],
    }
}

/// The `href` and `pdfsrc` values of the elements `links`, in order.
pub open spec fn raw_links(links: Seq<AttrPairView>) -> Seq<Seq<char>>
    decreases links.len(),
{
    if links.len() == 0 {
        seq![]
    } else {
        raw_links(links.drop_last()) + present(links.last().0) + present(links.last().1)
    }
}

/// The attachment URLs of an article: each link that resolves against `base` to a
/// URL that is an attachment, as that URL.
pub open spec fn attachment_set(links: Seq<AttrPairView>, base: Seq<char>, exts: Seq<Seq<char>>) -> Set<
    Seq<char>,
> {
    Set::new(
        |u: Seq<char>|
            is_attachment(u, exts) && exists|i: int|
                0 <= i < raw_links(links).len() && joined_url(base, raw_links(links)[i]) == Some(u),
    )
}

/// Whether `url` is an attachment under the endings `exts`.
pub fn is_attachment_url(url: &str, exts: &Vec<String>) -> (b: bool)
    ensures
        b == is_attachment(url@, string_views(exts@)),
{
    let lower = to_lowercase(url);
    let lc = chars_of(lower.as_str());
    let ghost ev = string_views(exts@);
    let n: usize = exts.len();
    for i in 0..n
        invariant
            n == exts@.len(),
            ev == string_views(exts@),
            lc@ == lowercase_of(url@),
            forall|j: int| 0 <= j < i ==> !ev[j].is_suffix_of(lowercase_of(url@)),
    {
        assert(ev[i as int] == exts@[i as int]@);
        let e = chars_of(exts[i].as_str());
        if ends_with_chars(lc.as_slice(), e.as_slice()) {
            return true;
        }
    }
    false
}

/// The `href` and `pdfsrc` values of `links`, in order.
fn raw_link_list(links: &Vec<AttrPair>) -> (r: Vec<String>)
    ensures
        string_views(r@) == raw_links(crate::html::pairs_view(links@)),
{
    let ghost lv = crate::html::pairs_view(links@);
    let n: usize = links.len();
    let mut out: Vec<String> = Vec::new();
    for i in 0..n
        invariant
            n == links@.len(),
            lv == crate::html::pairs_view(links@),
            string_views(out@) == raw_links(lv.take(i as int)),
    {
        assert(lv.take(i + 1).drop_last() =~= lv.take(i as int));
        assert(lv.take(i + 1).last() == crate::html::pair_view(links@[i as int]));
        match &links[i].0 {
            Some(h) => out.push(owned(h.as_str())),
            None => {},
        }
        match &links[i].1 {
            Some(p) => out.push(owned(p.as_str())),
            None => {},
        }
        assert(string_views(out@) =~= raw_links(lv.take(i + 1)));
    }
    assert(lv.take(n as int) =~= lv);
    out
}

/// The attachment URLs that the first `j` of the links `rv` resolve to against `base`.
pub open spec fn attachments_upto(rv: Seq<Seq<char>>, base: Seq<char>, exts: Seq<Seq<char>>, j: int) -> Set<
    Seq<char>,
> {
    Set::new(
        |u: Seq<char>|
            is_attachment(u, exts) && exists|i: int| 0 <= i < j && joined_url(base, rv[i]) == Some(u),
    )
}

/// One more link adds the URL it resolves to, where that is an attachment.
proof fn lemma_attachments_step(rv: Seq<Seq<char>>, base: Seq<char>, exts: Seq<Seq<char>>, j: int)
    requires
        0 <= j < rv.len(),
    ensures
        attachments_upto(rv, base, exts, j + 1) == match joined_url(base, rv[j]) {
            Some(u) => if is_attachment(u, exts) {
                attachments_upto(rv, base, exts, j).insert(u)
            } else {
                attachments_upto(rv, base, exts, j)
            },
            None => attachments_upto(rv, base, exts, j),
        },
{
    let next = attachments_upto(rv, base, exts, j + 1);
    let before = attachments_upto(rv, base, exts, j);
    assert forall|x: Seq<char>| next.contains(x) implies before.contains(x) || joined_url(base, rv[j])
        == Some(x) by {
        let i = choose|i: int| 0 <= i < j + 1 && joined_url(base, rv[i]) == Some(x);
        if i < j {
            assert(before.contains(x));
        }
    }
    match joined_url(base, rv[j]) {
        Some(u) => {
            if is_attachment(u, exts) {
                assert(next =~= before.insert(u));
            } else {
                assert(next =~= before);
            }
        },
        None => {
            assert(next =~= before);
        },
    }
}

/// The attachment URLs among `links`, resolved against `base`, sorted, each once.
pub fn collect_attachment_urls(links: &Vec<AttrPair>, base: &str, exts: &Vec<String>) -> (r: Vec<String>)
    ensures
        strictly_sorted(string_views(r@)),
        string_views(r@).to_set() == attachment_set(
            crate::html::pairs_view(links@),
            base@,
            string_views(exts@),
        ),
{
    let raw = raw_link_list(links);
    let ghost rv = string_views(raw@);
    let ghost ev = string_views(exts@);
    let n: usize = raw.len();
    let mut out: Vec<String> = Vec::new();
    assert(string_views(out@).to_set() =~= attachments_upto(rv, base@, ev, 0));
    for j in 0..n
        invariant
            n == raw@.len(),
            rv == string_views(raw@),
            ev == string_views(exts@),
            strictly_sorted(string_views(out@)),
            string_views(out@).to_set() == attachments_upto(rv, base@, ev, j as int),
    {
        proof {
            lemma_attachments_step(rv, base@, ev, j as int);
        }
        assert(rv[j as int] == raw@[j as int]@);
        match join_url(base, raw[j].as_str()) {
            Some(u) => {
                if is_attachment_url(u.as_str(), exts) {
                    insert_sorted_unique(&mut out, u);
                }
            },
            None => {},
        }
    }
    assert(string_views(out@).to_set() =~= attachment_set(
        crate::html::pairs_view(links@),
        base@,
        ev,
    ));
    out
}


/// The text of an article element `html`, rendered with or without its complex
/// tables kept as HTML.
pub open spec fn article_text(html: Seq<char>, base: Seq<char>, keep_complex_tables: bool) -> Seq<char> {
    if keep_complex_tables {
        pretty_text_with_tables_spec(html, base)
    } else {
        pretty_text_spec(html, base)
    }
}

/// `c` is the content read from the article element `el`, whose links resolve
/// against `base`.
pub open spec fn content_matches(
    c: Content,
    el: (Seq<char>, Seq<AttrPairView>),
    base: Seq<char>,
    exts: Seq<Seq<char>>,
    keep_complex_tables: bool,
) -> bool {
    &&& c.text@ == article_text(el.0, base, keep_complex_tables)
    &&& strictly_sorted(string_views(c.attachment_urls@))
    &&& string_views(c.attachment_urls@).to_set() == attachment_set(el.1, base, exts)
}

/// With the complex-table option off, an article's text is its plain Markdown
/// rendering, tables included; only with the option on are tables with spanning
/// cells set aside as HTML.
pub proof fn law_content_text_follows_option(
    c: Content,
    el: (Seq<char>, Seq<AttrPairView>),
    base: Seq<char>,
    exts: Seq<Seq<char>>,
)
    ensures
        content_matches(c, el, base, exts, false) ==> c.text@ == pretty_text_spec(el.0, base),
        content_matches(c, el, base, exts, true) ==> c.text@ == pretty_text_with_tables_spec(
            el.0,
            base,
        ),
{
}

/// The path of list page `page` of a category whose first page is at `path`: the
/// path itself for page 1, each `list` in it followed by the page number otherwise.
pub open spec fn list_path(path: Seq<char>, page: i32) -> Seq<char> {
    if page == 1 {
        path
    } else {
        replace_spec(path, "list"@, "list"@ + int_decimal(page as int))
    }
}

/// Where a row's link points: `href` itself when it starts with `http`, else
/// `href` after the site's address.
pub open spec fn detail_url_of(href: Seq<char>, base: Seq<char>) -> Seq<char> {
    if "http"@.is_prefix_of(href) {
        href
    } else {
        base + href
    }
}

/// A row's link that starts with `http` (an `http://` or an `https://` address)
/// is its detail URL as it stands; the site's address is put in front of any other
/// link.
pub proof fn law_detail_url(href: Seq<char>, base: Seq<char>)
    ensures
        "http"@.is_prefix_of(href) ==> detail_url_of(href, base) == href,
        "http://"@.is_prefix_of(href) ==> detail_url_of(href, base) == href,
        "https://"@.is_prefix_of(href) ==> detail_url_of(href, base) == href,
        !"http"@.is_prefix_of(href) ==> detail_url_of(href, base) == base + href,
{
    reveal_strlit("http");
    reveal_strlit("http://");
    reveal_strlit("https://");
    if "http://"@.is_prefix_of(href) || "https://"@.is_prefix_of(href) {
        assert forall|j: int| 0 <= j < 4 implies href[j] == "http"@[j] by {
            if "http://"@.is_prefix_of(href) {
                assert(href[j] == "http://"@[j]);
            } else {
                assert(href[j] == "https://"@[j]);
            }
        }
        assert("http"@.is_prefix_of(href));
    }
}

/// The date text of a row, trimmed; empty when the row has no date element.
pub open spec fn date_text_of(o: Option<Seq<char>>) -> Seq<char> {
    match o {
        Some(t) => trim_spec(t),
        None => seq![],
    }
}

/// The list row read from `f`: title, date text and detail URL; none when the row
/// has no link, or its link has no `title` or no `href`.
pub open spec fn row_of(f: RowFieldsView, base: Seq<char>) -> Option<(Seq<char>, Seq<char>, Seq<char>)> {
    match f.0 {
        Some(link) => match (link.0, link.1) {
            (Some(title), Some(href)) => Some((title, date_text_of(f.1), detail_url_of(href, base))),
            _ => None,
        },
        None => None,
    }
}

/// The rows read from `fs`, in order, those without a usable link dropped.
pub open spec fn rows_of(fs: Seq<RowFieldsView>, base: Seq<char>) -> Seq<(Seq<char>, Seq<char>, Seq<char>)>
    decreases fs.len(),
{
    if fs.len() == 0 {
        seq![]
    } else {
        rows_of(fs.drop_last(), base) + match row_of(fs.last(), base) {
            Some(r) => seq![r],
            None => seq![],
        }
    }
}

/// A row of a list page: the title of the news, its date as written, and the
/// URL of the news.
pub struct ListRow {
    pub title: String,
    pub date_text: String,
    pub detail_url: String,
}

impl ListRow {
    pub open spec fn view(&self) -> (Seq<char>, Seq<char>, Seq<char>) {
        (self.title@, self.date_text@, self.detail_url@)
    }
}

/// What a list page gives: its rows, and whether a next page follows.
pub struct ListPage {
    pub rows: Vec<ListRow>,
    pub has_next_page: bool,
}

/// A page number read from the text of an element: the trimmed text as an `i32`,
/// or 1 when there is no such element or its text is no number.
pub open spec fn page_number(o: Option<Seq<char>>) -> i32 {
    match o {
        Some(t) => match parse_i32_spec(trim_spec(t)) {
            Some(v) => v,
            None => 1,
        },
        None => 1,
    }
}

/// The date of a row: its date text read as year-month-day, or 1970-01-01 when it
/// does not read as such.
pub open spec fn row_date(date_text: Seq<char>) -> Date {
    match ymd_of(date_text) {
        Some(t) => date_of(t),
        None => Date { year: 1970, month: 1, day: 1 },
    }
}

/// The news of `url` takes the content of its article page: `url` is a web page,
/// not an attachment, and lies on the site at `base`.
pub open spec fn fetches_content(url: Seq<char>, base: Seq<char>, exts: Seq<Seq<char>>) -> bool {
    !is_attachment(url, exts) && base.is_prefix_of(url)
}

/// A news item of date `d` is kept: no date bound is given, or `d` is not before it.
pub open spec fn date_kept(d: Date, date_after: Option<Date>) -> bool {
    match date_after {
        Some(t) => !date_before(d, t),
        None => true,
    }
}

/// The date bound keeps a news item exactly when its date is the bound or comes
/// after it; news of an earlier year is always dropped.
pub proof fn law_date_bound(d: Date, t: Date)
    ensures
        date_kept(d, Some(t)) <==> (d == t || date_before(t, d)),
        d.year < t.year ==> !date_kept(d, Some(t)),
        d.year > t.year ==> date_kept(d, Some(t)),
        date_kept(d, None),
{
    crate::date::law_date_order(d, t, t);
    crate::date::law_calendar_order(d, t);
    crate::date::law_calendar_order(t, d);
}

/// What is done with one row of a list page.
pub struct RowPlan {
    /// The date of the news.
    pub date: Date,
    /// The date text did not read as a date (the date is then 1970-01-01).
    pub date_parse_failed: bool,
    /// The news passes the date bound.
    pub keep: bool,
    /// The news is a web page, not an attachment.
    pub is_page: bool,
    /// The article page is to be fetched: the news is kept, is a page, and is on
    /// the site itself.
    pub fetch_content: bool,
}

/// `c` with its setting for complex tables set to `value`.
pub open spec fn with_keep_complex_tables(c: Crawler, value: bool) -> Crawler {
    Crawler { keep_complex_tables: value, ..c }
}

/// `c` after its setting for complex tables was set to each of `values` in turn.
pub open spec fn after_settings(c: Crawler, values: Seq<bool>) -> Crawler
    decreases values.len(),
{
    if values.len() == 0 {
        c
    } else {
        with_keep_complex_tables(after_settings(c, values.drop_last()), values.last())
    }
}

/// Of any number of settings of the complex-table option, the last one holds (the
/// crawler's own setting where there was none), and the site and the attachment
/// endings stay as they were.
pub proof fn law_last_setting_holds(c: Crawler, values: Seq<bool>)
    ensures
        after_settings(c, values).keep_complex_tables == if values.len() == 0 {
            c.keep_complex_tables
        } else {
            values.last()
        },
        after_settings(c, values).config == c.config,
        after_settings(c, values).attachment_extensions == c.attachment_extensions,
    decreases values.len(),
{
    if values.len() > 0 {
        law_last_setting_holds(c, values.drop_last());
    }
}

impl Crawler {
    /// A crawler of the site `config`, which takes links ending in `.pdf`, `.docx`,
    /// `.doc`, `.xlsx`, `.xls`, `.zip` or `.rar` for attachments and renders all
    /// tables as Markdown.
    pub fn new(config: SiteConfig) -> (c: Crawler)
        ensures
            c.config == config,
            string_views(c.attachment_extensions@) == default_extensions(),
            !c.keep_complex_tables,
    {
        let mut exts: Vec<String> = Vec::new();
        exts.push(owned(".pdf"));
        exts.push(owned(".docx"));
        exts.push(owned(".doc"));
        exts.push(owned(".xlsx"));
        exts.push(owned(".xls"));
        exts.push(owned(".zip"));
        exts.push(owned(".rar"));
        assert(string_views(exts@) =~= default_extensions());
        Crawler { config, attachment_extensions: exts, keep_complex_tables: false }
    }

    /// Whether tables with spanning cells are kept as HTML; nothing else changes.
    pub fn set_keep_complex_tables(&mut self, value: bool)
        ensures
            *final(self) == with_keep_complex_tables(*old(self), value),
    {
        self.keep_complex_tables = value;
    }

    /// The address of an article page, parsed as a URL: the base that its links
    /// resolve against.
    pub fn page_base_url(url: &str) -> (r: Result<String, CrawlError>)
        ensures
            match parsed_url(url@) {
                Some(b) => r matches Ok(s) && s@ == b,
                None => r matches Err(CrawlError::InvalidUrl),
            },
    {
        match parse_url(url) {
            Some(b) => Ok(b),
            None => Err(CrawlError::InvalidUrl),
        }
    }

    /// The content of the article page `page_html`, whose address parses to `base`:
    /// the first element matching `content_body_sel`, rendered as text, with its
    /// attachment links.
    pub fn content_from_page(&self, base: &str, page_html: &str, content_body_sel: &str) -> (r: Result<
        Content,
        CrawlError,
    >)
        requires
            css_selector_valid(content_body_sel@),
        ensures
            match first_element_of(page_html@, content_body_sel@) {
                Some(el) => r matches Ok(c) && content_matches(
                    c,
                    el,
                    base@,
                    string_views(self.attachment_extensions@),
                    self.keep_complex_tables,
                ),
                None => r matches Err(CrawlError::ContentNotFound),
            },
    {
        match select_first_element(page_html, content_body_sel) {
            Some(el) => {
                let text = if self.keep_complex_tables {
                    get_pretty_text_with_complex_tables(el.html.as_str(), base)
                } else {
                    get_pretty_text(el.html.as_str(), base)
                };
                let attachment_urls = collect_attachment_urls(&el.links, base, &self.attachment_extensions);
                Ok(Content { text, attachment_urls })
            },
            None => Err(CrawlError::ContentNotFound),
        }
    }

    /// [`Crawler::content_from_page`] where `content_body_sel` is a valid selector;
    /// `None` where it is not.
    pub fn try_content_from_page(&self, base: &str, page_html: &str, content_body_sel: &str) -> (r:
        Option<Result<Content, CrawlError>>)
        ensures
            r is None <==> !css_selector_valid(content_body_sel@),
            match r {
                Some(res) => match first_element_of(page_html@, content_body_sel@) {
                    Some(el) => res matches Ok(c) && content_matches(
                        c,
                        el,
                        base@,
                        string_views(self.attachment_extensions@),
                        self.keep_complex_tables,
                    ),
                    None => res matches Err(CrawlError::ContentNotFound),
                },
                None => true,
            },
    {
        if selector_is_valid(content_body_sel) {
            Some(self.content_from_page(base, page_html, content_body_sel))
        } else {
            None
        }
    }

    /// The URL of list page `page` of `category`.
    pub fn list_page_url(&self, category: &Category, page: i32) -> (r: String)
        ensures
            r@ == self.config.base_url@ + list_path(category.path@, page),
    {
        let mut out = chars_of(self.config.base_url.as_str());
        let path = chars_of(category.path.as_str());
        if page == 1 {
            extend_chars(&mut out, path.as_slice());
        } else {
            let mut with_page = chars_of("list");
            let num = decimal_i64(page as i64);
            extend_chars(&mut with_page, num.as_slice());
            let replaced = replace_chars(path.as_slice(), chars_of("list").as_slice(), with_page.as_slice());
            extend_chars(&mut out, replaced.as_slice());
        }
        string_of(out.as_slice())
    }

    /// Whether the selectors that list pages are read with are valid.
    pub open spec fn list_selectors_valid(&self) -> bool {
        &&& css_selector_valid(self.config.selectors.list_row@)
        &&& css_selector_valid(self.config.selectors.list_title_link@)
        &&& css_selector_valid(self.config.selectors.list_date@)
        &&& css_selector_valid(self.config.selectors.current_page@)
        &&& css_selector_valid(self.config.selectors.all_pages@)
    }

    /// The rows of the list page `html`.
    pub fn list_rows(&self, html: &str) -> (r: Vec<ListRow>)
        requires
            self.list_selectors_valid(),
        ensures
            r@.map_values(|x: ListRow| x.view()) == rows_of(
                list_rows_of(
                    html@,
                    self.config.selectors.list_row@,
                    self.config.selectors.list_title_link@,
                    self.config.selectors.list_date@,
                ),
                self.config.base_url@,
            ),
    {
        let sel = &self.config.selectors;
        let fields = select_list_rows(
            html,
            sel.list_row.as_str(),
            sel.list_title_link.as_str(),
            sel.list_date.as_str(),
        );
        let ghost fv = fields@.map_values(|x: RowFields| x.view());
        let base = chars_of(self.config.base_url.as_str());
        let http = chars_of("http");
        let n: usize = fields.len();
        let mut out: Vec<ListRow> = Vec::new();
        for i in 0..n
            invariant
                n == fields@.len(),
                fv == fields@.map_values(|x: RowFields| x.view()),
                base@ == self.config.base_url@,
                http@ == "http"@,
                out@.map_values(|x: ListRow| x.view()) == rows_of(fv.take(i as int), base@),
        {
            let ghost before = out@.map_values(|x: ListRow| x.view());
            assert(fv.take(i + 1).drop_last() =~= fv.take(i as int));
            assert(fv.take(i + 1).last() == fields@[i as int].view());
            let f = &fields[i];
            match &f.link {
                Some(link) => match (&link.0, &link.1) {
                    (Some(title), Some(href)) => {
                        let date_text = match &f.date_text {
                            Some(t) => string_of(trim_chars(chars_of(t.as_str()).as_slice()).as_slice()),
                            None => String::new(),
                        };
                        let hc = chars_of(href.as_str());
                        let detail_url = if starts_with_chars(hc.as_slice(), http.as_slice()) {
                            owned(href.as_str())
                        } else {
                            let mut u = chars_of(self.config.base_url.as_str());
                            extend_chars(&mut u, hc.as_slice());
                            string_of(u.as_slice())
                        };
                        out.push(ListRow { title: owned(title.as_str()), date_text, detail_url });
                        assert(out@.map_values(|x: ListRow| x.view()) =~= before.push(
                            out@[out@.len() - 1].view(),
                        ));
                    },
                    _ => {},
                },
                None => {},
            }
            assert(out@.map_values(|x: ListRow| x.view()) =~= rows_of(fv.take(i + 1), base@));
        }
        assert(fv.take(n as int) =~= fv);
        out
    }

    /// Whether the list page `html` has a next page: its current page number is
    /// less than its number of pages.
    pub fn has_next_page(&self, html: &str) -> (b: bool)
        requires
            self.list_selectors_valid(),
        ensures
            b == (page_number(first_text_of(html@, self.config.selectors.current_page@))
                < page_number(first_text_of(html@, self.config.selectors.all_pages@))),
    {
        let current = page_number_of(select_first_text(html, self.config.selectors.current_page.as_str()));
        let total = page_number_of(select_first_text(html, self.config.selectors.all_pages.as_str()));
        current < total
    }

    /// Whether every selector that list pages are read with is valid.
    pub fn check_list_selectors(&self) -> (b: bool)
        ensures
            b == self.list_selectors_valid(),
    {
        let sel = &self.config.selectors;
        selector_is_valid(sel.list_row.as_str()) && selector_is_valid(sel.list_title_link.as_str())
            && selector_is_valid(sel.list_date.as_str()) && selector_is_valid(sel.current_page.as_str())
            && selector_is_valid(sel.all_pages.as_str())
    }

    /// The rows of the list page `html` and whether a next page follows; `None`
    /// where a selector of the site is not valid.
    pub fn read_list_page(&self, html: &str) -> (r: Option<ListPage>)
        ensures
            r is None <==> !self.list_selectors_valid(),
            r matches Some(p) ==> p.rows@.map_values(|x: ListRow| x.view()) == rows_of(
                list_rows_of(
                    html@,
                    self.config.selectors.list_row@,
                    self.config.selectors.list_title_link@,
                    self.config.selectors.list_date@,
                ),
                self.config.base_url@,
            ) && p.has_next_page == (page_number(
                first_text_of(html@, self.config.selectors.current_page@),
            ) < page_number(first_text_of(html@, self.config.selectors.all_pages@))),
    {
        if !self.check_list_selectors() {
            return None;
        }
        let rows = self.list_rows(html);
        let has_next_page = self.has_next_page(html);
        Some(ListPage { rows, has_next_page })
    }

    /// What is to be done with `row`, given the date bound `date_after`.
    pub fn plan_row(&self, row: &ListRow, date_after: Option<Date>) -> (p: RowPlan)
        ensures
            p.date == row_date(row.date_text@),
            p.date_parse_failed == (ymd_of(row.date_text@) is None),
            p.keep == date_kept(p.date, date_after),
            p.is_page == !is_attachment(row.detail_url@, string_views(self.attachment_extensions@)),
            p.fetch_content == (p.keep && fetches_content(
                row.detail_url@,
                self.config.base_url@,
                string_views(self.attachment_extensions@),
            )),
    {
        let (date, date_parse_failed) = match parse_ymd(row.date_text.as_str()) {
            Some(d) => (d, false),
            None => (Date::unix_epoch(), true),
        };
        let keep = match date_after {
            Some(t) => !date.is_before(&t),
            None => true,
        };
        let is_page = !is_attachment_url(row.detail_url.as_str(), &self.attachment_extensions);
        let on_site = starts_with_chars(
            chars_of(row.detail_url.as_str()).as_slice(),
            chars_of(self.config.base_url.as_str()).as_slice(),
        );
        RowPlan { date, date_parse_failed, keep, is_page, fetch_content: keep && is_page && on_site }
    }

    /// The news item of `row` under the category at index `category`, given
    /// `content`, the content read from its article page (none where it could not
    /// be read). The item carries that content only where its link is a web page on
    /// the site itself, and no content otherwise. `None` when the date bound drops
    /// the row, or when only news with content is wanted and the item has none.
    pub fn build_item(
        &self,
        category: usize,
        row: ListRow,
        date_after: Option<Date>,
        content: Option<Content>,
        with_contents_only: bool,
    ) -> (r: Option<NewsItem>)
        requires
            category < self.config.categories@.len(),
        ensures
            ({
                let exts = string_views(self.attachment_extensions@);
                let kept = if fetches_content(row.detail_url@, self.config.base_url@, exts) {
                    content
                } else {
                    None
                };
                &&& r is Some <==> date_kept(row_date(row.date_text@), date_after) && !(
                with_contents_only && kept is None)
                &&& r matches Some(item) ==> {
                    &&& item.id@ == key_spec(row.detail_url@)
                    &&& item.label@ == self.config.categories@[category as int].label@
                    &&& item.title@ == row.title@
                    &&& item.date == row_date(row.date_text@)
                    &&& item.detail_url@ == row.detail_url@
                    &&& item.is_page == !is_attachment(row.detail_url@, exts)
                    &&& item.content == kept
                    &&& item.content is Some ==> item.is_page && self.config.base_url@.is_prefix_of(
                        item.detail_url@,
                    )
                }
            }),
    {
        let plan = self.plan_row(&row, date_after);
        if !plan.keep {
            return None;
        }
        let content = if plan.fetch_content {
            content
        } else {
            None
        };
        if with_contents_only && content.is_none() {
            return None;
        }
        let id = generate_key(row.detail_url.as_str());
        Some(
            NewsItem {
                id,
                label: owned(self.config.categories[category].label.as_str()),
                title: row.title,
                date: plan.date,
                detail_url: row.detail_url,
                is_page: plan.is_page,
                content,
            },
        )
    }
}

/// Where a crawl of a site stands: the category and list page to fetch next, the
/// news gathered so far, and whether the crawl is over.
pub struct FetchProgress {
    pub category: usize,
    pub page: i32,
    pub news: Vec<NewsItem>,
    pub finished: bool,
}

impl FetchProgress {
    /// The progress as plain values: category index, page number, news, finished.
    pub open spec fn view(&self) -> (int, int, Seq<NewsItem>, bool) {
        (self.category as int, self.page as int, self.news@, self.finished)
    }
}

/// What a crawl does next.
pub enum FetchAction {
    /// Fetch list page `page` of the category at index `category`.
    FetchPage { category: usize, page: i32 },
    /// The crawl is over.
    Done,
}

/// The label and path of each category, in order.
pub open spec fn category_views(cats: Seq<Category>) -> Seq<(Seq<char>, Seq<char>)> {
    cats.map_values(|c: Category| (c.label@, c.path@))
}

/// The category at index `j` equals one before it, in label and path.
pub open spec fn is_repeat(cs: Seq<(Seq<char>, Seq<char>)>, j: int) -> bool {
    exists|t: int| 0 <= t < j && cs[t] == cs[j]
}

/// The first index from `i` on whose category repeats no earlier one; `i` itself
/// when `i` is past the last category.
pub open spec fn next_fresh(cs: Seq<(Seq<char>, Seq<char>)>, i: int) -> int
    decreases cs.len() - i,
{
    if i < 0 || i >= cs.len() {
        i
    } else if is_repeat(cs, i) {
        next_fresh(cs, i + 1)
    } else {
        i
    }
}

/// The state of a crawl: category index, page number, news gathered, finished.
pub open spec fn start_state(cs: Seq<(Seq<char>, Seq<char>)>) -> (int, int, Seq<NewsItem>, bool) {
    (0, 1, Seq::empty(), cs.len() == 0)
}

/// The crawl state after the current page of `s` gave `items` and `has_next_page`.
/// The page's news are added. The next page of the same category follows when the
/// page had news and a next page; otherwise the crawl goes on at the first page of
/// the next category that repeats no earlier one, and is over when there is none.
/// A crawl that is over stays where it is.
pub open spec fn crawl_step(
    cs: Seq<(Seq<char>, Seq<char>)>,
    s: (int, int, Seq<NewsItem>, bool),
    items: Seq<NewsItem>,
    has_next_page: bool,
) -> (int, int, Seq<NewsItem>, bool) {
    if s.3 || s.0 >= cs.len() {
        (s.0, s.1, s.2, true)
    } else if items.len() > 0 && has_next_page {
        (s.0, s.1 + 1, s.2 + items, false)
    } else {
        let nf = next_fresh(cs, s.0 + 1);
        (nf, 1, s.2 + items, nf >= cs.len())
    }
}

/// From `i` on, the search for a category that repeats none lands at or after `i`
/// and not past the last category; every category it passes over is a repeat, and
/// the one it lands on, if any, is not.
pub proof fn lemma_next_fresh(cs: Seq<(Seq<char>, Seq<char>)>, i: int)
    requires
        0 <= i <= cs.len(),
    ensures
        i <= next_fresh(cs, i) <= cs.len(),
        next_fresh(cs, i) < cs.len() ==> !is_repeat(cs, next_fresh(cs, i)),
        forall|k: int| i <= k < next_fresh(cs, i) ==> is_repeat(cs, k),
        next_fresh(cs, next_fresh(cs, i)) == next_fresh(cs, i),
    decreases cs.len() - i,
{
    if i < cs.len() && is_repeat(cs, i) {
        lemma_next_fresh(cs, i + 1);
        assert forall|k: int| i <= k < next_fresh(cs, i) implies is_repeat(cs, k) by {
            if k > i {
            }
        }
    }
}

/// Each recorded page moves a crawl strictly forward: to the next page of the same
/// category, or to the first page of a later category, passing over exactly the
/// categories that repeat an earlier one; the page's news follow the news gathered.
pub proof fn law_crawl_moves_forward(
    cs: Seq<(Seq<char>, Seq<char>)>,
    s: (int, int, Seq<NewsItem>, bool),
    items: Seq<NewsItem>,
    has_next_page: bool,
)
    requires
        !s.3,
        0 <= s.0 < cs.len(),
    ensures
        ({
            let next = crawl_step(cs, s, items, has_next_page);
            &&& next.2 == s.2 + items
            &&& next.0 == s.0 ==> next.1 == s.1 + 1 && !next.3
            &&& next.0 != s.0 ==> {
                &&& s.0 < next.0 <= cs.len()
                &&& next.1 == 1
                &&& next.0 < cs.len() ==> !is_repeat(cs, next.0)
                &&& forall|k: int| s.0 < k < next.0 ==> is_repeat(cs, k)
            }
        }),
{
    lemma_next_fresh(cs, s.0 + 1);
}

/// A crawl is over after a page exactly when that page ends its category (no news,
/// or no next page) and every later category repeats an earlier one.
pub proof fn law_crawl_ends_after_last_category(
    cs: Seq<(Seq<char>, Seq<char>)>,
    s: (int, int, Seq<NewsItem>, bool),
    items: Seq<NewsItem>,
    has_next_page: bool,
)
    requires
        !s.3,
        0 <= s.0 < cs.len(),
    ensures
        crawl_step(cs, s, items, has_next_page).3 <==> ((items.len() == 0 || !has_next_page)
            && forall|k: int| s.0 < k < cs.len() ==> is_repeat(cs, k)),
{
    lemma_next_fresh(cs, s.0 + 1);
    let nf = next_fresh(cs, s.0 + 1);
    if nf < cs.len() {
        assert(!is_repeat(cs, nf));
    }
}

/// The state after `steps` pages of a crawl from `s`, where `pages(j, q)` is what
/// list page `q` of the category at index `j` gives: its news and whether a next
/// page follows.
pub open spec fn run_crawl(
    cs: Seq<(Seq<char>, Seq<char>)>,
    pages: spec_fn(int, int) -> (Seq<NewsItem>, bool),
    s: (int, int, Seq<NewsItem>, bool),
    steps: nat,
) -> (int, int, Seq<NewsItem>, bool)
    decreases steps,
{
    if steps == 0 {
        s
    } else {
        let r = pages(s.0, s.1);
        run_crawl(cs, pages, crawl_step(cs, s, r.0, r.1), (steps - 1) as nat)
    }
}

/// Page `m` is the last page of the category at index `j`: the pages before it
/// have news and a next page, and page `m` has no news or no next page.
pub open spec fn ends_at(pages: spec_fn(int, int) -> (Seq<NewsItem>, bool), j: int, m: nat) -> bool {
    &&& m >= 1
    &&& forall|q: int| 1 <= q < m ==> (#[trigger] pages(j, q)).0.len() > 0 && pages(j, q).1
    &&& pages(j, m as int).0.len() == 0 || !pages(j, m as int).1
}

/// The news of pages `1..=m` of the category at index `j`, in page order.
pub open spec fn category_news(pages: spec_fn(int, int) -> (Seq<NewsItem>, bool), j: int, m: nat) -> Seq<
    NewsItem,
>
    decreases m,
{
    if m == 0 {
        seq![]
    } else {
        category_news(pages, j, (m - 1) as nat) + pages(j, m as int).0
    }
}

/// The news of the categories from index `i` on, in order, each category that
/// repeats an earlier one left out, category `j` read up to its page `ends[j]`.
pub open spec fn news_from(
    cs: Seq<(Seq<char>, Seq<char>)>,
    pages: spec_fn(int, int) -> (Seq<NewsItem>, bool),
    ends: Seq<nat>,
    i: int,
) -> Seq<NewsItem>
    decreases cs.len() - i,
{
    if i < 0 || i >= cs.len() {
        seq![]
    } else if is_repeat(cs, i) {
        news_from(cs, pages, ends, i + 1)
    } else {
        category_news(pages, i, ends[i]) + news_from(cs, pages, ends, i + 1)
    }
}

/// The number of pages fetched for the categories from index `i` on.
pub open spec fn steps_from(cs: Seq<(Seq<char>, Seq<char>)>, ends: Seq<nat>, i: int) -> nat
    decreases cs.len() - i,
{
    if i < 0 || i >= cs.len() {
        0
    } else if is_repeat(cs, i) {
        steps_from(cs, ends, i + 1)
    } else {
        ends[i] + steps_from(cs, ends, i + 1)
    }
}

proof fn lemma_run_split(
    cs: Seq<(Seq<char>, Seq<char>)>,
    pages: spec_fn(int, int) -> (Seq<NewsItem>, bool),
    s: (int, int, Seq<NewsItem>, bool),
    a: nat,
    b: nat,
)
    ensures
        run_crawl(cs, pages, s, a + b) == run_crawl(cs, pages, run_crawl(cs, pages, s, a), b),
    decreases a,
{
    if a > 0 {
        let r = pages(s.0, s.1);
        lemma_run_split(cs, pages, crawl_step(cs, s, r.0, r.1), (a - 1) as nat, b);
        assert((a + b - 1) as nat == ((a - 1) as nat + b) as nat);
    }
}

proof fn lemma_category_run(
    cs: Seq<(Seq<char>, Seq<char>)>,
    pages: spec_fn(int, int) -> (Seq<NewsItem>, bool),
    j: int,
    m: nat,
    q: int,
    acc: Seq<NewsItem>,
)
    requires
        0 <= j < cs.len(),
        ends_at(pages, j, m),
        1 <= q <= m,
    ensures
        ({
            let nf = next_fresh(cs, j + 1);
            run_crawl(
                cs,
                pages,
                (j, q, acc + category_news(pages, j, (q - 1) as nat), false),
                (m - q + 1) as nat,
            ) == (nf, 1int, acc + category_news(pages, j, m), nf >= cs.len())
        }),
    decreases m - q,
{
    let s = (j, q, acc + category_news(pages, j, (q - 1) as nat), false);
    let r = pages(j, q);
    assert(category_news(pages, j, q as nat) == category_news(pages, j, (q - 1) as nat) + r.0);
    assert(acc + category_news(pages, j, (q - 1) as nat) + r.0 =~= acc + category_news(
        pages,
        j,
        q as nat,
    ));
    let steps = (m - q + 1) as nat;
    assert(run_crawl(cs, pages, s, steps) == run_crawl(
        cs,
        pages,
        crawl_step(cs, s, r.0, r.1),
        (steps - 1) as nat,
    ));
    if q < m {
        assert(r.0.len() > 0 && r.1);
        assert(crawl_step(cs, s, r.0, r.1) == (
            j,
            q + 1,
            acc + category_news(pages, j, q as nat),
            false,
        ));
        lemma_category_run(cs, pages, j, m, q + 1, acc);
        assert((steps - 1) as nat == (m - (q + 1) + 1) as nat);
    } else {
        assert(r.0.len() == 0 || !r.1);
        let nf = next_fresh(cs, j + 1);
        assert(crawl_step(cs, s, r.0, r.1) == (nf, 1int, acc + category_news(pages, j, m), nf
            >= cs.len()));
    }
}

proof fn lemma_skip_repeats(
    cs: Seq<(Seq<char>, Seq<char>)>,
    pages: spec_fn(int, int) -> (Seq<NewsItem>, bool),
    ends: Seq<nat>,
    i: int,
)
    requires
        0 <= i <= cs.len(),
    ensures
        news_from(cs, pages, ends, i) == news_from(cs, pages, ends, next_fresh(cs, i)),
        steps_from(cs, ends, i) == steps_from(cs, ends, next_fresh(cs, i)),
    decreases cs.len() - i,
{
    if i < cs.len() && is_repeat(cs, i) {
        lemma_skip_repeats(cs, pages, ends, i + 1);
    }
}

proof fn lemma_crawl_from(
    cs: Seq<(Seq<char>, Seq<char>)>,
    pages: spec_fn(int, int) -> (Seq<NewsItem>, bool),
    ends: Seq<nat>,
    i: int,
    acc: Seq<NewsItem>,
)
    requires
        0 <= i <= cs.len(),
        i == cs.len() || !is_repeat(cs, i),
        ends.len() == cs.len(),
        forall|j: int| 0 <= j < cs.len() && !is_repeat(cs, j) ==> ends_at(pages, j, #[trigger] ends[j]),
    ensures
        run_crawl(cs, pages, (i, 1, acc, i >= cs.len()), steps_from(cs, ends, i)) == (
            cs.len() as int,
            1int,
            acc + news_from(cs, pages, ends, i),
            true,
        ),
    decreases cs.len() - i,
{
    if i == cs.len() {
        assert(acc + news_from(cs, pages, ends, i) =~= acc);
    } else {
        let m = ends[i];
        assert(ends_at(pages, i, m));
        let s = (i, 1int, acc, false);
        lemma_run_split(cs, pages, s, m, steps_from(cs, ends, i + 1));
        lemma_category_run(cs, pages, i, m, 1, acc);
        assert(acc + category_news(pages, i, 0) =~= acc);
        let nf = next_fresh(cs, i + 1);
        let acc2 = acc + category_news(pages, i, m);
        lemma_next_fresh(cs, i + 1);
        lemma_skip_repeats(cs, pages, ends, i + 1);
        lemma_crawl_from(cs, pages, ends, nf, acc2);
        assert(acc2 + news_from(cs, pages, ends, nf) =~= acc + news_from(cs, pages, ends, i));
    }
}

/// A whole crawl: from its start, it reads the categories in order, passing over
/// each category that repeats an earlier one, and reads every other category from
/// its first page up to its last page `ends[j]` (the first page with no news or no
/// next page). After those pages it is over, and its news are those of the pages
/// read, in that order.
pub proof fn law_whole_crawl(
    cs: Seq<(Seq<char>, Seq<char>)>,
    pages: spec_fn(int, int) -> (Seq<NewsItem>, bool),
    ends: Seq<nat>,
)
    requires
        ends.len() == cs.len(),
        forall|j: int| 0 <= j < cs.len() && !is_repeat(cs, j) ==> ends_at(pages, j, #[trigger] ends[j]),
    ensures
        run_crawl(cs, pages, start_state(cs), steps_from(cs, ends, 0)) == (
            cs.len() as int,
            1int,
            news_from(cs, pages, ends, 0),
            true,
        ),
{
    lemma_crawl_from(cs, pages, ends, 0, Seq::empty());
    assert(Seq::<NewsItem>::empty() + news_from(cs, pages, ends, 0) =~= news_from(cs, pages, ends, 0));
}

/// `l` is the label of one of the categories `cs`.
pub open spec fn is_label(cs: Seq<(Seq<char>, Seq<char>)>, l: Seq<char>) -> bool {
    exists|j: int| 0 <= j < cs.len() && cs[j].0 == l
}

/// Every item of `items` is labelled `l`.
pub open spec fn all_labelled(items: Seq<NewsItem>, l: Seq<char>) -> bool {
    forall|k: int| 0 <= k < items.len() ==> (#[trigger] items[k]).label@ == l
}

/// Every item of `items` carries the label of one of the categories `cs`.
pub open spec fn labels_known(items: Seq<NewsItem>, cs: Seq<(Seq<char>, Seq<char>)>) -> bool {
    forall|k: int| 0 <= k < items.len() ==> is_label(cs, (#[trigger] items[k]).label@)
}

proof fn lemma_category_news_labelled(
    pages: spec_fn(int, int) -> (Seq<NewsItem>, bool),
    j: int,
    m: nat,
    l: Seq<char>,
)
    requires
        forall|q: int| all_labelled(#[trigger] pages(j, q).0, l),
    ensures
        all_labelled(category_news(pages, j, m), l),
    decreases m,
{
    if m > 0 {
        lemma_category_news_labelled(pages, j, (m - 1) as nat, l);
        let a = category_news(pages, j, (m - 1) as nat);
        let b = pages(j, m as int).0;
        assert(all_labelled(b, l));
        assert forall|k: int| 0 <= k < (a + b).len() implies (#[trigger] (a + b)[k]).label@ == l by {
            if k >= a.len() {
                assert((a + b)[k] == b[k - a.len()]);
            }
        }
    }
}

proof fn lemma_news_from_labelled(
    cs: Seq<(Seq<char>, Seq<char>)>,
    pages: spec_fn(int, int) -> (Seq<NewsItem>, bool),
    ends: Seq<nat>,
    i: int,
)
    requires
        0 <= i,
        forall|j: int, q: int| 0 <= j < cs.len() ==> all_labelled(#[trigger] pages(j, q).0, cs[j].0),
    ensures
        labels_known(news_from(cs, pages, ends, i), cs),
    decreases cs.len() - i,
{
    if i < cs.len() {
        lemma_news_from_labelled(cs, pages, ends, i + 1);
        if !is_repeat(cs, i) {
            assert forall|q: int| all_labelled(#[trigger] pages(i, q).0, cs[i].0) by {
                assert(all_labelled(pages(i, q).0, cs[i].0));
            }
            lemma_category_news_labelled(pages, i, ends[i], cs[i].0);
            let a = category_news(pages, i, ends[i]);
            let b = news_from(cs, pages, ends, i + 1);
            assert forall|k: int| 0 <= k < (a + b).len() implies is_label(cs, (#[trigger] (a + b)[k]).label@) by {
                if k < a.len() {
                    assert((a + b)[k] == a[k]);
                    assert(a[k].label@ == cs[i].0);
                } else {
                    assert((a + b)[k] == b[k - a.len()]);
                }
            }
        }
    }
}

/// Where every list page of a category gives news labelled with that category's
/// label, as [`Crawler::build_item`] makes them, every news item of a whole crawl
/// carries the label of a configured category.
pub proof fn law_crawl_news_are_labelled(
    cs: Seq<(Seq<char>, Seq<char>)>,
    pages: spec_fn(int, int) -> (Seq<NewsItem>, bool),
    ends: Seq<nat>,
)
    requires
        forall|j: int, q: int| 0 <= j < cs.len() ==> all_labelled(#[trigger] pages(j, q).0, cs[j].0),
    ensures
        labels_known(news_from(cs, pages, ends, 0), cs),
{
    lemma_news_from_labelled(cs, pages, ends, 0);
}

impl Crawler {
    /// A crawl at its start: the first page of the first category, no news yet;
    /// over at once when the site has no category.
    pub fn start_fetch(&self) -> (p: FetchProgress)
        ensures
            p@ == start_state(category_views(self.config.categories@)),
    {
        let p = FetchProgress {
            category: 0,
            page: 1,
            news: Vec::new(),
            finished: self.config.categories.len() == 0,
        };
        assert(p.news@ =~= Seq::<NewsItem>::empty());
        p
    }

    /// What the crawl `p` does next: fetch its current page, unless it is over.
    pub fn next_action(&self, p: &FetchProgress) -> (a: FetchAction)
        ensures
            a == if p.finished || p.category >= self.config.categories@.len() {
                FetchAction::Done
            } else {
                FetchAction::FetchPage { category: p.category, page: p.page }
            },
    {
        if p.finished || p.category >= self.config.categories.len() {
            FetchAction::Done
        } else {
            FetchAction::FetchPage { category: p.category, page: p.page }
        }
    }

    /// Whether the category at index `j` equals one before it.
    fn is_repeated_category(&self, j: usize) -> (b: bool)
        requires
            j < self.config.categories@.len(),
        ensures
            b == is_repeat(category_views(self.config.categories@), j as int),
    {
        let cats = &self.config.categories;
        let ghost cv = category_views(cats@);
        let lj = chars_of(cats[j].label.as_str());
        let pj = chars_of(cats[j].path.as_str());
        for t in 0..j
            invariant
                j < cats@.len(),
                cats@ == self.config.categories@,
                cv == category_views(cats@),
                lj@ == cats@[j as int].label@,
                pj@ == cats@[j as int].path@,
                forall|u: int| 0 <= u < t ==> cv[u] != cv[j as int],
        {
            let lt = chars_of(cats[t].label.as_str());
            let pt = chars_of(cats[t].path.as_str());
            if chars_eq(lt.as_slice(), lj.as_slice()) && chars_eq(pt.as_slice(), pj.as_slice()) {
                assert(cv[t as int] == cv[j as int]);
                assert(is_repeat(cv, j as int));
                return true;
            }
        }
        false
    }

    /// The first index from `from` on whose category repeats no earlier one, or the
    /// number of categories when there is none.
    fn next_fresh_category(&self, from: usize) -> (r: usize)
        requires
            from <= self.config.categories@.len(),
        ensures
            r == next_fresh(category_views(self.config.categories@), from as int),
    {
        let n: usize = self.config.categories.len();
        let ghost cv = category_views(self.config.categories@);
        let mut j: usize = from;
        while j < n && self.is_repeated_category(j)
            invariant
                from <= j <= n,
                n == self.config.categories@.len(),
                cv == category_views(self.config.categories@),
                next_fresh(cv, j as int) == next_fresh(cv, from as int),
            decreases n - j,
        {
            j = j + 1;
        }
        j
    }

    /// Records what the current page of the crawl `p` gave (see [`crawl_step`]).
    pub fn record_page(&self, p: &mut FetchProgress, status: FetchStatus)
        requires
            !(old(p).page == i32::MAX && status.has_next_page && status.news_items@.len() > 0),
        ensures
            final(p)@ == crawl_step(
                category_views(self.config.categories@),
                old(p)@,
                status.news_items@,
                status.has_next_page,
            ),
    {
        let n: usize = self.config.categories.len();
        if p.finished || p.category >= n {
            p.finished = true;
            return;
        }
        let nonempty: bool = status.news_items.len() > 0;
        let has_next: bool = status.has_next_page;
        let mut items = status.news_items;
        p.news.append(&mut items);
        if nonempty && has_next {
            p.page = p.page + 1;
        } else {
            let next = self.next_fresh_category(p.category + 1);
            p.category = next;
            p.page = 1;
            p.finished = next >= n;
        }
    }
}

/// The page number that the text `o` gives (see [`page_number`]).
fn page_number_of(o: Option<String>) -> (n: i32)
    ensures
        n == page_number(crate::web::opt_view(o)),
{
    match o {
        Some(t) => match parse_i32(trim_chars(chars_of(t.as_str()).as_slice()).as_slice()) {
            Some(v) => v,
            None => 1,
        },
        None => 1,
    }
}

} // verus!
