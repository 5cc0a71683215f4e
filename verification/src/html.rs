//! What is read out of HTML documents: rows of list pages, article bodies, tables
//! and their cells, and the Markdown rendering of a fragment. Parsing HTML and
//! matching CSS selectors is left to the `scraper` crate, rendering to `htmd`.
use vstd::prelude::*;

use crate::web::opt_view;

verus! {

/// A pair of optional attribute values of one element.
pub type AttrPair = (Option<String>, Option<String>);

/// The view of an [`AttrPair`].
pub type AttrPairView = (Option<Seq<char>>, Option<Seq<char>>);

pub open spec fn pair_view(p: AttrPair) -> AttrPairView {
    (opt_view(p.0), opt_view(p.1))
}

pub open spec fn pairs_view(v: Seq<AttrPair>) -> Seq<AttrPairView> {
    v.map_values(|p: AttrPair| pair_view(p))
}

/// What is read of one row of a list page: the `title` and `href` attributes of
/// the first link in the row (when there is a link), and the text of the first
/// date element (when there is one).
pub struct RowFields {
    pub link: Option<AttrPair>,
    pub date_text: Option<String>,
}

pub type RowFieldsView = (Option<AttrPairView>, Option<Seq<char>>);

impl RowFields {
    pub open spec fn view(&self) -> RowFieldsView {
        (
            match self.link {
                Some(p) => Some(pair_view(p)),
                None => None,
            },
            opt_view(self.date_text),
        )
    }
}

/// An element of a document: its HTML, and the `href` and `pdfsrc` attributes of
/// each element inside it, in document order.
pub struct ElementData {
    pub html: String,
    pub links: Vec<AttrPair>,
}

impl ElementData {
    pub open spec fn view(&self) -> (Seq<char>, Seq<AttrPairView>) {
        (self.html@, pairs_view(self.links@))
    }
}

/// A `table` element: its HTML, and the `rowspan` and `colspan` attributes of each
/// `td` or `th` cell inside it.
pub struct TableData {
    pub html: String,
    pub cells: Vec<AttrPair>,
}

impl TableData {
    pub open spec fn view(&self) -> (Seq<char>, Seq<AttrPairView>) {
        (self.html@, pairs_view(self.cells@))
    }
}

/// `scraper::Selector::parse` accepts `sel` as a group of CSS selectors.
pub uninterp spec fn css_selector_valid(sel: Seq<char>) -> bool;

/// The rows of the document `html` that match `row_sel`, each read as [`RowFields`]
/// with the selectors `link_sel` and `date_sel`.
pub uninterp spec fn list_rows_of(
    html: Seq<char>,
    row_sel: Seq<char>,
    link_sel: Seq<char>,
    date_sel: Seq<char>,
) -> Seq<RowFieldsView>;

/// The text of the first element of the document `html` that matches `sel`.
pub uninterp spec fn first_text_of(html: Seq<char>, sel: Seq<char>) -> Option<Seq<char>>;

/// The first element of the document `html` that matches `sel`, read as
/// [`ElementData`].
pub uninterp spec fn first_element_of(html: Seq<char>, sel: Seq<char>) -> Option<
    (Seq<char>, Seq<AttrPairView>),
>;

/// The `table` elements of the document `html`, in document order, read as
/// [`TableData`].
pub uninterp spec fn tables_of(html: Seq<char>) -> Seq<(Seq<char>, Seq<AttrPairView>)>;

/// The Markdown that `htmd` renders of `html`, skipping `script`, `style`,
/// `colgroup` and `col` elements; `None` where it reports an error.
pub uninterp spec fn markdown_of(html: Seq<char>) -> Option<Seq<char>>;

/// Whether `scraper::Selector::parse` accepts `sel`.
#[verifier::external_body]
pub(crate) fn selector_is_valid(sel: &str) -> (b: bool)
    ensures
        b == css_selector_valid(sel@),
{
    scraper::Selector::parse(sel).is_ok()
}

/// `scraper::Html::parse_document` and `select`: the rows matching `row_sel`, with
/// the first `link_sel` element's `title` and `href` and the text of the first
/// `date_sel` element of each. The result is named `list_rows_of`.
#[verifier::external_body]
pub(crate) fn select_list_rows(html: &str, row_sel: &str, link_sel: &str, date_sel: &str) -> (r: Vec<RowFields>)
    requires
        css_selector_valid(row_sel@),
        css_selector_valid(link_sel@),
        css_selector_valid(date_sel@),
    ensures
        r@.map_values(|x: RowFields| x.view()) == list_rows_of(html@, row_sel@, link_sel@, date_sel@),
{
    let doc = scraper::Html::parse_document(html);
    let sel = |s: &str| scraper::Selector::parse(s).unwrap();
    let (rows, link, date) = (sel(row_sel), sel(link_sel), sel(date_sel));
    let attr = |e: &scraper::ElementRef, a: &str| e.value().attr(a).map(String::from);
    doc.select(&rows).map(|row| RowFields {
        link: row.select(&link).next().map(|a| (attr(&a, "title"), attr(&a, "href"))),
        date_text: row.select(&date).next().map(|d| d.text().collect::<String>()),
    }).collect()
}

/// `scraper::Html::parse_document` and `select`: the text of the first element
/// matching `sel`. The result is named `first_text_of`.
#[verifier::external_body]
pub(crate) fn select_first_text(html: &str, sel: &str) -> (r: Option<String>)
    requires
        css_selector_valid(sel@),
    ensures
        opt_view(r) == first_text_of(html@, sel@),
{
    let doc = scraper::Html::parse_document(html);
    let sel = scraper::Selector::parse(sel).unwrap();
    doc.select(&sel).next().map(|e| e.text().collect::<String>())
}

/// `scraper::Html::parse_document` and `select`: the HTML of the first element
/// matching `sel`, with the `href` and `pdfsrc` of every element inside it. The
/// result is named `first_element_of`.
#[verifier::external_body]
pub(crate) fn select_first_element(html: &str, sel: &str) -> (r: Option<ElementData>)
    requires
        css_selector_valid(sel@),
    ensures
        match r {
            Some(e) => first_element_of(html@, sel@) == Some(e.view()),
            None => first_element_of(html@, sel@) is None,
        },
{
    let doc = scraper::Html::parse_document(html);
    let (sel, all) = (scraper::Selector::parse(sel).unwrap(), scraper::Selector::parse("*").unwrap());
    let attr = |e: &scraper::ElementRef, a: &str| e.value().attr(a).map(String::from);
    doc.select(&sel).next().map(|e| ElementData {
        html: e.html(),
        links: e.select(&all).map(|x| (attr(&x, "href"), attr(&x, "pdfsrc"))).collect(),
    })
}

/// `scraper::Html::parse_document` and `select("table")`: each table's HTML with
/// the `rowspan` and `colspan` of its `td` and `th` cells. The result is named
/// `tables_of`.
#[verifier::external_body]
pub(crate) fn select_tables(html: &str) -> (r: Vec<TableData>)
    ensures
        r@.map_values(|t: TableData| t.view()) == tables_of(html@),
{
    let doc = scraper::Html::parse_document(html);
    let (table, cell) = (scraper::Selector::parse("table").unwrap(), scraper::Selector::parse("td, th").unwrap());
    let attr = |e: &scraper::ElementRef, a: &str| e.value().attr(a).map(String::from);
    doc.select(&table).map(|t| TableData {
        html: t.html(),
        cells: t.select(&cell).map(|c| (attr(&c, "rowspan"), attr(&c, "colspan"))).collect(),
    }).collect()
}

/// `htmd::HtmlToMarkdown` built to skip `script`, `style`, `colgroup` and `col`,
/// then `convert`. The Markdown is named `markdown_of`.
#[verifier::external_body]
pub(crate) fn html_to_markdown(html: &str) -> (r: Option<String>)
    ensures
        opt_view(r) == markdown_of(html@),
{
    let converter = htmd::HtmlToMarkdown::builder().skip_tags(vec!["script", "style", "colgroup", "col"]).build();
    match converter.convert(html) {
        Ok(md) => Some(md),
        Err(_) => None,
    }
}

} // verus!
