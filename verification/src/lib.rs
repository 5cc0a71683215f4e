//! Crawler for university news sites: list pages, article pages and their
//! attachments, with the text of each article rendered as Markdown.
pub mod article;
pub mod crawl;
pub mod date;
pub mod digest;
pub mod html;
pub mod markdown;
pub mod models;
pub mod pattern;
pub mod sorted;
pub mod text;
pub mod web;

use vstd::prelude::*;

pub use crate::crawl::cs::get_cs;
pub use crate::crawl::jwc::get_jwc;
pub use crate::crawl::xsxy::get_xsxy;
pub use crate::crawl::{
    Category, Content, CrawlError, Crawler, FetchStatus, NewsItem, SelectionConfig, SiteConfig,
};
pub use crate::date::Date;

verus! {

/// The command line of a crawl.
pub struct Args {
    /// The file the news is written to.
    pub out: String,
    /// The site to crawl, by name: `jwc` or `xsxy`.
    pub data_source: String,
    /// Only news on or after this date (year-month-day) is kept.
    pub date: Option<String>,
    /// Only news with content is kept.
    pub with_contents_only: bool,
}

/// The crawler of the site named `name`: `jwc` and `xsxy` are known, any other name
/// is refused.
pub fn select_data_source(name: &str) -> (r: Result<Crawler, CrawlError>)
    ensures
        name@ == "jwc"@ ==> (r matches Ok(c) && crate::crawl::jwc::is_jwc_crawler(c)),
        name@ == "xsxy"@ ==> (r matches Ok(c) && crate::crawl::xsxy::is_xsxy_crawler(c)),
        name@ != "jwc"@ && name@ != "xsxy"@ ==> (r matches Err(CrawlError::UnsupportedDataSource(s))
            && s@ == name@),
{
    proof {
        reveal_strlit("jwc");
        reveal_strlit("xsxy");
        assert("jwc"@.len() != "xsxy"@.len());
    }
    let n = crate::text::chars_of(name);
    if crate::text::chars_eq(n.as_slice(), crate::text::chars_of("jwc").as_slice()) {
        Ok(get_jwc())
    } else if crate::text::chars_eq(n.as_slice(), crate::text::chars_of("xsxy").as_slice()) {
        Ok(get_xsxy())
    } else {
        Err(CrawlError::UnsupportedDataSource(crate::text::owned(name)))
    }
}

/// The date bound given on the command line: none when no date is given, the date
/// it reads as otherwise; refused where it does not read as year-month-day.
pub fn parse_date_arg(date: &Option<String>) -> (r: Result<Option<Date>, CrawlError>)
    ensures
        match date {
            None => r == Ok::<Option<Date>, CrawlError>(None),
            Some(s) => match crate::date::ymd_of(s@) {
                Some(t) => r == Ok::<Option<Date>, CrawlError>(Some(crate::date::date_of(t))),
                None => r matches Err(CrawlError::InvalidDate(e)) && e@ == s@,
            },
        },
{
    match date {
        None => Ok(None),
        Some(s) => match crate::date::parse_ymd(s.as_str()) {
            Some(d) => Ok(Some(d)),
            None => Err(CrawlError::InvalidDate(crate::text::owned(s.as_str()))),
        },
    }
}

/// The crawler and the date bound of the crawl that `args` asks for: the site is
/// looked up first, then the date read.
pub fn prepare_run(args: &Args) -> (r: Result<(Crawler, Option<Date>), CrawlError>)
    ensures
        match (select_data_source_spec(args.data_source@), args.date) {
            (false, _) => r matches Err(CrawlError::UnsupportedDataSource(s)) && s@ == args.data_source@,
            (true, None) => r matches Ok((c, d)) && d is None,
            (true, Some(s)) => match crate::date::ymd_of(s@) {
                Some(t) => r matches Ok((c, d)) && d == Some(crate::date::date_of(t)),
                None => r matches Err(CrawlError::InvalidDate(e)) && e@ == s@,
            },
        },
        r matches Ok((c, d)) ==> ((args.data_source@ == "jwc"@ ==> crate::crawl::jwc::is_jwc_crawler(c))
            && (args.data_source@ == "xsxy"@ ==> crate::crawl::xsxy::is_xsxy_crawler(c))),
{
    let crawler = select_data_source(args.data_source.as_str())?;
    let date = parse_date_arg(&args.date)?;
    Ok((crawler, date))
}

/// Whether a site is known under `name`.
pub open spec fn select_data_source_spec(name: Seq<char>) -> bool {
    name == "jwc"@ || name == "xsxy"@
}

} // verus!
