//! The news site of the office of academic affairs.
use vstd::prelude::*;

use crate::crawl::{default_extensions, Category, Crawler, SelectionConfig, SiteConfig};
use crate::sorted::string_views;
use crate::text::owned;

verus! {

/// The categories of the site, as (label, path of the first list page).
pub open spec fn jwc_categories() -> Seq<(Seq<char>, Seq<char>)> {
    seq![
        ("最新动态"@, "/zxdt/list.htm"@),
        ("教务信息"@, "/jwxx/list.htm"@),
        ("学籍管理"@, "/xjgl/list.htm"@),
        ("教学研究"@, "/jxyj/list.htm"@),
        ("实践教学"@, "/sjjx/list.htm"@),
        ("国际交流"@, "/gjjl/list.psp"@),
        ("文化素质教育"@, "/cbxx/list.htm"@),
    ]
}

/// `c` is a crawler of this site, as a new crawler is set up.
pub open spec fn is_jwc_crawler(c: Crawler) -> bool {
    &&& c.config.name@ == "教务处"@
    &&& c.config.base_url@ == "https://jwc.seu.edu.cn"@
    &&& c.config.categories@.map_values(|k: Category| (k.label@, k.path@)) == jwc_categories()
    &&& c.config.selectors.list_row@ == "#wp_news_w8 table.main tr"@
    &&& c.config.selectors.list_title_link@ == "a[title]"@
    &&& c.config.selectors.list_date@ == "td.main div"@
    &&& c.config.selectors.content_body@ == "div.Article_Content"@
    &&& c.config.selectors.current_page@ == "em.curr_page"@
    &&& c.config.selectors.all_pages@ == "em.all_pages"@
    &&& string_views(c.attachment_extensions@) == default_extensions()
    &&& !c.keep_complex_tables
}

/// A crawler of this site.
pub fn get_jwc() -> (c: Crawler)
    ensures
        is_jwc_crawler(c),
{
    let mut categories: Vec<Category> = Vec::new();
    categories.push(Category { label: owned("最新动态"), path: owned("/zxdt/list.htm") });
    categories.push(Category { label: owned("教务信息"), path: owned("/jwxx/list.htm") });
    categories.push(Category { label: owned("学籍管理"), path: owned("/xjgl/list.htm") });
    categories.push(Category { label: owned("教学研究"), path: owned("/jxyj/list.htm") });
    categories.push(Category { label: owned("实践教学"), path: owned("/sjjx/list.htm") });
    categories.push(Category { label: owned("国际交流"), path: owned("/gjjl/list.psp") });
    categories.push(Category { label: owned("文化素质教育"), path: owned("/cbxx/list.htm") });
    assert(categories@.map_values(|k: Category| (k.label@, k.path@)) =~= jwc_categories());
    let config = SiteConfig {
        name: owned("教务处"),
        base_url: owned("https://jwc.seu.edu.cn"),
        categories,
        selectors: SelectionConfig {
            list_row: owned("#wp_news_w8 table.main tr"),
            list_title_link: owned("a[title]"),
            list_date: owned("td.main div"),
            content_body: owned("div.Article_Content"),
            current_page: owned("em.curr_page"),
            all_pages: owned("em.all_pages"),
        },
    };
    Crawler::new(config)
}

} // verus!
