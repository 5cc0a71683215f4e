//! The news site of the school of computer science and engineering.
use vstd::prelude::*;

use crate::crawl::{default_extensions, Category, Crawler, SelectionConfig, SiteConfig};
use crate::sorted::string_views;
use crate::text::owned;

verus! {

/// The categories of the site, as (label, path of the first list page).
pub open spec fn cs_categories() -> Seq<(Seq<char>, Seq<char>)> {
    seq![
        ("学院新闻"@, "/news/list.htm"@),
        ("通知公告"@, "/49342/list.htm"@),
        ("学术活动"@, "/xshd_53564/list.htm"@),
    ]
}

/// `c` is a crawler of this site, as a new crawler is set up.
pub open spec fn is_cs_crawler(c: Crawler) -> bool {
    &&& c.config.name@ == "计算机科学与工程学院"@
    &&& c.config.base_url@ == "https://cs.seu.edu.cn"@
    &&& c.config.categories@.map_values(|k: Category| (k.label@, k.path@)) == cs_categories()
    &&& c.config.selectors.list_row@ == "ul.news_list li.news"@
    &&& c.config.selectors.list_title_link@ == "span.news_title a"@
    &&& c.config.selectors.list_date@ == "span.news_meta"@
    &&& c.config.selectors.content_body@ == "div.wp_articlecontent"@
    &&& c.config.selectors.current_page@ == "em.curr_page"@
    &&& c.config.selectors.all_pages@ == "em.all_pages"@
    &&& string_views(c.attachment_extensions@) == default_extensions()
    &&& !c.keep_complex_tables
}

/// A crawler of this site.
pub fn get_cs() -> (c: Crawler)
    ensures
        is_cs_crawler(c),
{
    let mut categories: Vec<Category> = Vec::new();
    categories.push(Category { label: owned("学院新闻"), path: owned("/news/list.htm") });
    categories.push(Category { label: owned("通知公告"), path: owned("/49342/list.htm") });
    categories.push(Category { label: owned("学术活动"), path: owned("/xshd_53564/list.htm") });
    assert(categories@.map_values(|k: Category| (k.label@, k.path@)) =~= cs_categories());
    let config = SiteConfig {
        name: owned("计算机科学与工程学院"),
        base_url: owned("https://cs.seu.edu.cn"),
        categories,
        selectors: SelectionConfig {
            list_row: owned("ul.news_list li.news"),
            list_title_link: owned("span.news_title a"),
            list_date: owned("span.news_meta"),
            content_body: owned("div.wp_articlecontent"),
            current_page: owned("em.curr_page"),
            all_pages: owned("em.all_pages"),
        },
    };
    Crawler::new(config)
}

} // verus!
