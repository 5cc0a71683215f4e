use jwc_crawler::crawl::{FetchAction, FetchProgress, ListRow};

use jwc_crawler::{
    get_cs, get_jwc, get_xsxy, parse_date_arg, prepare_run, select_data_source, Args, Category,
    Content, CrawlError, Crawler, Date, FetchStatus, NewsItem,
};

const PAGE: &str = "https://jwc.seu.edu.cn/2026/0126/c21676a553741/page.htm";

fn exts() -> Vec<String> {
    [".pdf", ".docx", ".doc", ".xlsx", ".xls", ".zip", ".rar"].map(|s| s.to_string()).to_vec()
}

#[test]
fn test_fetch_summary() {
    let jwc = get_jwc();
    assert_eq!(jwc.attachment_extensions, exts());
    let base = Crawler::page_base_url(PAGE).unwrap();
    assert_eq!(base, PAGE);
    let page = "<html><body><div class=\"Article_Content\"><p>通知</p>\
        <p><a href=\"/_upload/a.PDF\">附件</a><a pdfsrc=\"b.docx\">b</a><a href=\"/x.htm\">x</a>\
        <a href=\"/_upload/a.pdf\">again</a></p></div></body></html>";
    let s = jwc.try_content_from_page(&base, page, "div.Article_Content").unwrap().unwrap();
    println!("{s:?}");
    assert_eq!(
        s.attachment_urls,
        vec![
            "https://jwc.seu.edu.cn/2026/0126/c21676a553741/b.docx".to_string(),
            "https://jwc.seu.edu.cn/_upload/a.PDF".to_string(),
            "https://jwc.seu.edu.cn/_upload/a.pdf".to_string(),
        ]
    );
    assert!(s.text.starts_with("通知"));
}

#[test]
fn missing_content_is_an_error() {
    let jwc = get_jwc();
    let r = jwc.content_from_page(PAGE, "<p>nothing</p>", "div.Article_Content");
    assert!(matches!(r, Err(CrawlError::ContentNotFound)));
}

#[test]
fn invalid_content_selector_is_refused() {
    let jwc = get_jwc();
    assert!(jwc.try_content_from_page(PAGE, "<p>x</p>", "div[").is_none());
}

#[test]
fn page_urls_are_normalized() {
    assert_eq!(Crawler::page_base_url("HTTPS://JWC.seu.edu.cn").unwrap(), "https://jwc.seu.edu.cn/");
}

#[test]
fn invalid_page_url_is_refused() {
    assert!(matches!(Crawler::page_base_url("not a url"), Err(CrawlError::InvalidUrl)));
}

#[test]
fn new_crawler_defaults() {
    let mut c = get_xsxy();
    assert!(!c.keep_complex_tables);
    c.set_keep_complex_tables(true);
    assert!(c.keep_complex_tables);
    assert_eq!(c.config.base_url, "https://xsxy.seu.edu.cn");
}

#[test]
fn sites_are_configured() {
    let jwc = get_jwc();
    assert_eq!(jwc.config.name, "教务处");
    assert_eq!(jwc.config.categories.len(), 7);
    assert_eq!(jwc.config.categories[5].path, "/gjjl/list.psp");
    assert_eq!(jwc.config.selectors.list_title_link, "a[title]");
    let cs = get_cs();
    assert_eq!(cs.config.base_url, "https://cs.seu.edu.cn");
    assert_eq!(cs.config.categories[2].label, "学术活动");
    assert_eq!(get_xsxy().config.categories[0].path, "/57140/list.htm");
}

#[test]
fn list_page_urls() {
    let jwc = get_jwc();
    let cat = Category { label: "x".to_string(), path: "/zxdt/list.htm".to_string() };
    assert_eq!(jwc.list_page_url(&cat, 1), "https://jwc.seu.edu.cn/zxdt/list.htm");
    assert_eq!(jwc.list_page_url(&cat, 3), "https://jwc.seu.edu.cn/zxdt/list3.htm");
}

const LIST: &str = r#"<html><body><ul class="news_list">
<li class="news"><span class="news_title"><a href="/2026/0301/c1/page.htm" title="First">First</a></span><span class="news_meta"> 2026-03-01 </span></li>
<li class="news"><span class="news_title"><a href="https://other.site/doc.PDF" title="Second">Second</a></span><span class="news_meta">2026-02-01</span></li>
<li class="news"><span class="news_title"><a href="/no-title.htm">No title</a></span></li>
<li class="news"><span class="news_title"><a title="No href">x</a></span></li>
</ul><em class="curr_page">1</em><em class="all_pages"> 3 </em></body></html>"#;

#[test]
fn list_page_rows_and_next_page() {
    let xsxy = get_xsxy();
    let page = xsxy.read_list_page(LIST).unwrap();
    assert_eq!(page.rows.len(), 2);
    assert_eq!(page.rows[0].title, "First");
    assert_eq!(page.rows[0].date_text, "2026-03-01");
    assert_eq!(page.rows[0].detail_url, "https://xsxy.seu.edu.cn/2026/0301/c1/page.htm");
    assert_eq!(page.rows[1].detail_url, "https://other.site/doc.PDF");
    assert!(page.has_next_page);
}

#[test]
fn last_list_page_has_no_next_page() {
    let xsxy = get_xsxy();
    let html = "<em class=\"curr_page\">3</em><em class=\"all_pages\">3</em>";
    let page = xsxy.read_list_page(html).unwrap();
    assert!(page.rows.is_empty());
    assert!(!page.has_next_page);
    assert!(!xsxy.read_list_page("<p>no numbers</p>").unwrap().has_next_page);
}

fn row(date: &str, url: &str) -> ListRow {
    ListRow { title: "t".to_string(), date_text: date.to_string(), detail_url: url.to_string() }
}

#[test]
fn rows_are_planned() {
    let c = get_xsxy();
    let bound = Some(Date { year: 2026, month: 2, day: 15 });
    let p = c.plan_row(&row("2026-03-01", "https://xsxy.seu.edu.cn/a/page.htm"), bound);
    assert!(p.keep && p.is_page && p.fetch_content && !p.date_parse_failed);
    let p = c.plan_row(&row("2026-02-01", "https://xsxy.seu.edu.cn/a/page.htm"), bound);
    assert!(!p.keep && !p.fetch_content);
    let p = c.plan_row(&row("2026-03-01", "https://xsxy.seu.edu.cn/a.DOCX"), bound);
    assert!(p.keep && !p.is_page && !p.fetch_content);
    let p = c.plan_row(&row("2026-03-01", "https://other.site/a.htm"), bound);
    assert!(p.keep && p.is_page && !p.fetch_content);
    let p = c.plan_row(&row("yesterday", "https://other.site/a.htm"), None);
    assert!(p.date_parse_failed && p.keep);
    assert_eq!(p.date, Date { year: 1970, month: 1, day: 1 });
}

#[test]
fn items_are_built() {
    let c = get_xsxy();
    let item = c.build_item(0, row("2026-03-01", "abc"), None, None, false).unwrap();
    assert_eq!(item.id, "ba7816bf8f01cfea414140de5dae2223b00361a396177a9cb410ff61f20015ad");
    assert_eq!(item.label, "新闻动态");
    assert_eq!(item.date, Date { year: 2026, month: 3, day: 1 });
    assert!(item.content.is_none());
    assert!(c.build_item(0, row("2026-03-01", "abc"), None, None, true).is_none());
    let bound = Some(Date { year: 2026, month: 3, day: 2 });
    assert!(c.build_item(0, row("2026-03-01", "abc"), bound, None, false).is_none());
    let same_day = Some(Date { year: 2026, month: 3, day: 1 });
    assert!(c.build_item(0, row("2026-03-01", "abc"), same_day, None, false).is_some());
    let other = c.build_item(2, row("2026-03-01", "abc"), None, None, false).unwrap();
    assert_eq!(other.label, "人才培养");
}

fn content() -> Content {
    Content { text: "body".to_string(), attachment_urls: vec![] }
}

#[test]
fn items_carry_content_only_for_pages_on_the_site() {
    let c = get_xsxy();
    let on_site = row("2026-03-01", "https://xsxy.seu.edu.cn/a/page.htm");
    let item = c.build_item(0, on_site, None, Some(content()), true).unwrap();
    assert_eq!(item.content.unwrap().text, "body");
    let elsewhere = row("2026-03-01", "https://other.site/a.htm");
    let item = c.build_item(0, elsewhere, None, Some(content()), false).unwrap();
    assert!(item.content.is_none());
    let elsewhere = row("2026-03-01", "https://other.site/a.htm");
    assert!(c.build_item(0, elsewhere, None, Some(content()), true).is_none());
    let file = row("2026-03-01", "https://xsxy.seu.edu.cn/a.pdf");
    let item = c.build_item(1, file, None, Some(content()), false).unwrap();
    assert!(item.content.is_none() && !item.is_page);
}

#[test]
fn last_setting_of_complex_tables_holds() {
    let mut c = get_jwc();
    assert!(!c.keep_complex_tables);
    c.set_keep_complex_tables(true);
    c.set_keep_complex_tables(false);
    assert!(!c.keep_complex_tables);
    c.set_keep_complex_tables(true);
    assert!(c.keep_complex_tables);
    assert_eq!(c.config.name, "教务处");
    assert_eq!(c.attachment_extensions, exts());
}

#[test]
fn repeated_categories_are_crawled_once() {
    let mut c = get_xsxy();
    let cats = c.config.categories.clone();
    c.config.categories = vec![cats[0].clone(), cats[1].clone(), cats[0].clone(), cats[2].clone(), cats[1].clone()];
    let mut p = c.start_fetch();
    c.record_page(&mut p, FetchStatus { news_items: vec![item("a")], has_next_page: false });
    assert!(matches!(c.next_action(&p), FetchAction::FetchPage { category: 1, page: 1 }));
    c.record_page(&mut p, FetchStatus { news_items: vec![item("b")], has_next_page: false });
    assert!(matches!(c.next_action(&p), FetchAction::FetchPage { category: 3, page: 1 }));
    c.record_page(&mut p, FetchStatus { news_items: vec![item("c")], has_next_page: false });
    assert!(p.finished);
    assert!(matches!(c.next_action(&p), FetchAction::Done));
    let titles: Vec<&str> = p.news.iter().map(|n| n.title.as_str()).collect();
    assert_eq!(titles, vec!["a", "b", "c"]);
}

#[test]
fn same_label_other_path_is_a_new_category() {
    let mut c = get_xsxy();
    let first = c.config.categories[0].clone();
    let twin = Category { label: first.label.clone(), path: "/other/list.htm".to_string() };
    c.config.categories = vec![first, twin];
    let mut p = c.start_fetch();
    c.record_page(&mut p, FetchStatus { news_items: vec![], has_next_page: true });
    assert!(matches!(c.next_action(&p), FetchAction::FetchPage { category: 1, page: 1 }));
}

fn item(n: &str) -> NewsItem {
    NewsItem {
        id: n.to_string(),
        label: String::new(),
        title: n.to_string(),
        date: Date { year: 2026, month: 1, day: 1 },
        detail_url: String::new(),
        is_page: true,
        content: None,
    }
}

#[test]
fn crawl_visits_pages_in_order() {
    let c = get_xsxy();
    let mut p = c.start_fetch();
    assert!(matches!(c.next_action(&p), FetchAction::FetchPage { category: 0, page: 1 }));
    c.record_page(&mut p, FetchStatus { news_items: vec![item("a")], has_next_page: true });
    assert!(matches!(c.next_action(&p), FetchAction::FetchPage { category: 0, page: 2 }));
    c.record_page(&mut p, FetchStatus { news_items: vec![item("b")], has_next_page: false });
    assert!(matches!(c.next_action(&p), FetchAction::FetchPage { category: 1, page: 1 }));
    c.record_page(&mut p, FetchStatus { news_items: vec![], has_next_page: true });
    assert!(matches!(c.next_action(&p), FetchAction::FetchPage { category: 2, page: 1 }));
    c.record_page(&mut p, FetchStatus { news_items: vec![item("c")], has_next_page: false });
    assert!(p.finished);
    assert!(matches!(c.next_action(&p), FetchAction::Done));
    let titles: Vec<&str> = p.news.iter().map(|n| n.title.as_str()).collect();
    assert_eq!(titles, vec!["a", "b", "c"]);
    c.record_page(&mut p, FetchStatus { news_items: vec![item("d")], has_next_page: true });
    assert_eq!(p.news.len(), 3);
}

#[test]
fn crawl_of_no_category_is_over_at_once() {
    let mut c = get_cs();
    c.config.categories.clear();
    let p: FetchProgress = c.start_fetch();
    assert!(p.finished);
    assert!(matches!(c.next_action(&p), FetchAction::Done));
}

#[test]
fn data_sources_are_looked_up() {
    assert_eq!(select_data_source("jwc").unwrap().config.name, "教务处");
    assert_eq!(select_data_source("xsxy").unwrap().config.name, "新生学院");
    match select_data_source("cs") {
        Err(CrawlError::UnsupportedDataSource(n)) => assert_eq!(n, "cs"),
        _ => panic!("cs is not a known data source"),
    }
}

#[test]
fn date_arguments_are_read() {
    assert!(matches!(parse_date_arg(&None), Ok(None)));
    assert_eq!(
        parse_date_arg(&Some("2026-03-01".to_string())).unwrap(),
        Some(Date { year: 2026, month: 3, day: 1 })
    );
    match parse_date_arg(&Some("03/01/2026".to_string())) {
        Err(CrawlError::InvalidDate(s)) => assert_eq!(s, "03/01/2026"),
        _ => panic!("the date should be refused"),
    }
    assert_eq!(parse_date_arg(&Some("2026-3-1".to_string())).unwrap(), Some(Date { year: 2026, month: 3, day: 1 }));
}

#[test]
fn runs_are_prepared() {
    let args = Args {
        out: "out.json".to_string(),
        data_source: "jwc".to_string(),
        date: Some("2026-03-01".to_string()),
        with_contents_only: true,
    };
    let (c, d) = prepare_run(&args).unwrap();
    assert_eq!(c.config.base_url, "https://jwc.seu.edu.cn");
    assert_eq!(d, Some(Date { year: 2026, month: 3, day: 1 }));
    let bad = Args { data_source: "nope".to_string(), ..args };
    assert!(matches!(prepare_run(&bad), Err(CrawlError::UnsupportedDataSource(_))));
}

#[test]
fn date_order() {
    let a = Date { year: 2026, month: 2, day: 28 };
    let b = Date { year: 2026, month: 3, day: 1 };
    assert!(a.is_before(&b));
    assert!(!b.is_before(&a));
    assert!(!a.is_before(&a));
}
