use jwc_crawler::markdown::{
    clean_markdown, fix_markdown_table_separator, is_punctuation, join_markdown_lines,
    remove_empty_bold_pairs, table_separator_line, tidy_lines,
};
use jwc_crawler::text::{chars_of, string_of};

fn run(f: fn(&[char]) -> Vec<char>, input: &str) -> String {
    string_of(&f(&chars_of(input)))
}

#[test]
fn empty_bold_pairs_are_removed() {
    assert_eq!(run(remove_empty_bold_pairs, "a** **b"), "ab");
    assert_eq!(run(remove_empty_bold_pairs, "a****b"), "ab");
    assert_eq!(run(remove_empty_bold_pairs, "**x**y"), "**x** y");
    assert_eq!(run(remove_empty_bold_pairs, "**x**，y"), "**x**，y");
    assert_eq!(run(remove_empty_bold_pairs, "**x** y"), "**x** y");
    assert_eq!(run(remove_empty_bold_pairs, "**open"), "**open");
    assert_eq!(run(remove_empty_bold_pairs, "tail**"), "tail**");
    assert_eq!(run(remove_empty_bold_pairs, "no stars"), "no stars");
}

#[test]
fn clean_markdown_drops_four_stars() {
    assert_eq!(run(clean_markdown, "**a**"), "**a**");
    assert_eq!(run(clean_markdown, "x** **y"), "xy");
    assert_eq!(run(clean_markdown, "text without stars"), "text without stars");
}

#[test]
fn punctuation_includes_full_width_marks() {
    assert!(is_punctuation('.'));
    assert!(is_punctuation('。'));
    assert!(is_punctuation('、'));
    assert!(!is_punctuation('a'));
    assert!(!is_punctuation('中'));
}

#[test]
fn separator_row_is_added_under_header() {
    assert_eq!(run(fix_markdown_table_separator, "| a | b |\n| 1 | 2 |"), "| a | b |\n| --- | --- |\n| 1 | 2 |");
    assert_eq!(run(fix_markdown_table_separator, "intro\n| a | b |"), "intro\n| a | b |\n| --- | --- |");
}

#[test]
fn separator_row_is_not_doubled() {
    let md = "| a | b |\n| --- | --- |\n| 1 | 2 |";
    assert_eq!(run(fix_markdown_table_separator, md), md);
}

#[test]
fn text_without_tables_is_left_alone() {
    let md = "first line\nsecond line\n\nthird";
    assert_eq!(run(fix_markdown_table_separator, md), md);
}

#[test]
fn short_text_is_left_alone() {
    assert_eq!(run(fix_markdown_table_separator, "| a | b |\n"), "| a | b |\n");
    assert_eq!(run(fix_markdown_table_separator, "plain\r\ntext\n"), "plain\ntext");
}

#[test]
fn separator_line_has_one_cell_per_column() {
    assert_eq!(string_of(&table_separator_line(1)), "| --- |");
    assert_eq!(string_of(&table_separator_line(3)), "| --- | --- | --- |");
}

#[test]
fn lines_are_tidied_and_joined() {
    let lines = tidy_lines(&chars_of("  a  b \n\n&nbsp;\n|x|\n|y|\nz\u{a0}\u{a0}w"));
    let texts: Vec<String> = lines.iter().map(|l| string_of(l)).collect();
    assert_eq!(texts, vec!["a b", " ", "|x|", "|y|", "z w"]);
    assert_eq!(string_of(&join_markdown_lines(&lines)), "a b\n\n \n\n|x|\n|y|\n\nz w");
}

#[test]
fn separator_step_twice_is_once() {
    for md in ["| a | b |\n| 1 | 2 |", "intro\n| a | b |", "x\ny", "| a |\n\n| b |"] {
        let once = run(fix_markdown_table_separator, md);
        assert_eq!(run(fix_markdown_table_separator, &once), once);
    }
}
