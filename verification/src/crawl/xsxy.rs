//! The news site of the freshman college.
use vstd::prelude::*;

use crate::crawl::{default_extensions, Category, Crawler, SelectionConfig, SiteConfig};
use crate::sorted::string_views;
use crate::text::owned;

verus! {

/// The categories of the site, as (label, path of the first list page).
pub open spec fn xsxy_categories() -> Seq<(Seq<char>, Seq<char>)> {
    seq![
        ("新闻动态"@, "/57140/list.htm"@),
        ("通知公告"@, "/57141/list.htm"@),
        ("人才培养"@, "/57151/list.htm"@),
    ]
}

/// `c` is a crawler of this site, as a new crawler is set up.
pub open spec fn is_xsxy_crawler(c: Crawler) -> bool {
    &&& c.config.name@ == "新生学院"@
    &&& c.config.base_url@ == "https://xsxy.seu.edu.cn"@
    &&& c.config.categories@.map_values(|k: Category| (k.label@, k.path@)) == xsxy_categories()
    &&& c.config.selectors.list_row@ == "ul.news_list li.news"@
    &&& c.config.selectors.list_title_link@ == "span.news_title a"@
    &&& c.config.selectors.list_date@ == "span.news_meta"@
    &&& c.config.selectors.content_body@ == "div.wp_articlecontent"@
    &&& c.config.selectors.current_page@ == "em.curr_page"@
    &&& c.config.selectors.all_pages@ == "em.all_pages"@
    &&& string_views(c.attachment_extensions@) == default_extensions()
    &&& !c.keep_complex_tables
}

/// A crawler of this site.
pub fn get_xsxy() -> (c: Crawler)
    ensures
        is_xsxy_crawler(c),
{
    let mut categories: Vec<Category> = Vec::new();
    categories.push(Category { label: owned("新闻动态"), path: owned("/57140/list.htm") });
    categories.push(Category { label: owned("通知公告"), path: owned("/57141/list.htm") });
    categories.push(Category { label: owned("人才培养"), path: owned("/57151/list.htm") });
    assert(categories@.map_values(|k: Category| (k.label@, k.path@)) =~= xsxy_categories());
    let config = SiteConfig {
        name: owned("新生学院"),
        base_url: owned("https://xsxy.seu.edu.cn"),
        categories,
        selectors: SelectionConfig {
            list_row: owned("ul.news_list li.news"),
            list_title_link: owned("span.news_title a"),
            list_date: owned("span.news_meta"),
            content_body: owned("div.wp_articlecontent"),
            current_page: owned("em.curr_page"),
            all_pages: owned("em.all_pages"),
        },
    };
    Crawler::new(config)
}

} // verus!
