use jwc_crawler::article::{
    clean_html_table, fix_markdown_links, get_pretty_text, get_pretty_text_with_complex_tables,
    placeholder_text, replace_complex_tables_with_placeholders,
};
use jwc_crawler::digest::generate_key;
use jwc_crawler::text::string_of;

const BASE: &str = "https://jwc.seu.edu.cn/2026/0126/c21676a553741/page.htm";

#[test]
fn links_are_made_absolute() {
    let md = "see [notice](/files/a.pdf \"title\") and ![pic](img/b.png)";
    assert_eq!(
        string_of(&fix_markdown_links(md, BASE)),
        "see [notice](https://jwc.seu.edu.cn/files/a.pdf) and ![pic](https://jwc.seu.edu.cn/2026/0126/c21676a553741/img/b.png)"
    );
}

#[test]
fn icon_links_are_dropped() {
    let md = "x ![](/images/icon_pdf.gif)y";
    assert_eq!(string_of(&fix_markdown_links(md, BASE)), "x y");
}

#[test]
fn links_that_do_not_resolve_are_kept() {
    let md = "[a](http://[bad)";
    assert_eq!(string_of(&fix_markdown_links(md, BASE)), "[a](http://[bad)");
}

#[test]
fn text_without_links_is_unchanged() {
    let md = "plain text (with parentheses) and [brackets]";
    assert_eq!(string_of(&fix_markdown_links(md, BASE)), md);
}

#[test]
fn table_attributes_are_cleaned() {
    let html = r#"<table class="x" style="a"><tr><td rowspan="2" width="10" foo="bar">a</td></tr></table>"#;
    assert_eq!(
        string_of(&clean_html_table(html)),
        r#"<table  ><tr><td rowspan="2" width="10" >a</td></tr></table>"#
    );
}

#[test]
fn placeholders_are_numbered() {
    assert_eq!(string_of(&placeholder_text(0)), "__TABLE_PLACEHOLDER_0__");
    assert_eq!(string_of(&placeholder_text(12)), "__TABLE_PLACEHOLDER_12__");
}

#[test]
fn only_tables_with_spanning_cells_are_replaced() {
    let html = "<table><tbody><tr><td>a</td></tr></tbody></table><table><tbody><tr><td colspan=\"2\">b</td></tr></tbody></table>";
    let (work, reps) = replace_complex_tables_with_placeholders(html);
    assert_eq!(reps.len(), 1);
    assert_eq!(reps[0].0, "__TABLE_PLACEHOLDER_0__");
    assert_eq!(reps[0].1, "<table><tbody><tr><td colspan=\"2\">b</td></tr></tbody></table>");
    assert_eq!(work, "<table><tbody><tr><td>a</td></tr></tbody></table>__TABLE_PLACEHOLDER_0__");
}

#[test]
fn pretty_text_of_a_fragment() {
    let html = "<div class=\"Article_Content\"><p>Hello&nbsp;&nbsp;<strong>world</strong>!</p><p><a href=\"/files/a.PDF\">notice</a></p></div>";
    assert_eq!(
        get_pretty_text(html, BASE),
        "Hello **world**!\n\n[notice](https://jwc.seu.edu.cn/files/a.PDF)"
    );
}

#[test]
fn complex_tables_are_set_aside_before_rendering() {
    // The table leaves the HTML for a placeholder before rendering; the Markdown
    // renderer escapes the placeholder's underscores, so it is not put back.
    let html = "<div><p>Intro</p><table><tbody><tr><td rowspan=\"2\">x</td></tr></tbody></table></div>";
    let text = get_pretty_text_with_complex_tables(html, BASE);
    assert_eq!(text, "Intro\n\n\\_\\_TABLE\\_PLACEHOLDER\\_0\\_\\_");
    assert_eq!(get_pretty_text(html, BASE), "Intro\n\nx");
}

#[test]
fn key_is_the_sha256_of_the_url() {
    assert_eq!(
        generate_key("abc"),
        "ba7816bf8f01cfea414140de5dae2223b00361a396177a9cb410ff61f20015ad"
    );
    let k = generate_key(BASE);
    assert_eq!(k.len(), 64);
    assert!(k.chars().all(|c| c.is_ascii_hexdigit() && !c.is_ascii_uppercase()));
}
