use nerdcli::anchor::author_anchor;
use nerdcli::anchor::max_line_length;
use nerdcli::anchor::source_anchor;
use nerdcli::anchor::source_line;
use nerdcli::layout::LayoutMode;
use nerdcli::quotes::default_quote;
use nerdcli::settings::parse_layout_mode;
use nerdcli::settings::resolve_i16;
use nerdcli::settings::resolve_layout_token;
use nerdcli::settings::resolve_u16;

#[test]
fn layout_tokens_parse() {
    assert_eq!(parse_layout_mode("ROW"), LayoutMode::Row);
    assert_eq!(parse_layout_mode("ROW_CENTERED"), LayoutMode::RowCentered);
    assert_eq!(parse_layout_mode("COL"), LayoutMode::Col);
    assert_eq!(parse_layout_mode("COL_CENTERED"), LayoutMode::ColCentered);
}

#[test]
fn unrecognized_layout_token_falls_back_to_col() {
    assert_eq!(parse_layout_mode("DIAGONAL"), LayoutMode::Col);
    assert_eq!(parse_layout_mode(""), LayoutMode::Col);
    // Tokens are case-sensitive.
    assert_eq!(parse_layout_mode("row"), LayoutMode::Col);
    assert_eq!(parse_layout_mode("ROW_CENTERED "), LayoutMode::Col);
}

#[test]
fn command_line_overrides_win() {
    assert_eq!(resolve_u16(Some(5), Some(7)), 5);
    assert_eq!(resolve_u16(None, Some(7)), 7);
    assert_eq!(resolve_u16(Some(5), None), 5);
    assert_eq!(resolve_i16(Some(-3), Some(4)), -3);
    assert_eq!(resolve_i16(None, Some(-4)), -4);
    let cli = Some("ROW".to_string());
    let cfg = Some("COL".to_string());
    assert_eq!(resolve_layout_token(&cli, &cfg), "ROW");
    assert_eq!(resolve_layout_token(&None, &cfg), "COL");
}

#[test]
fn default_quote_is_the_jobs_line() {
    let q = default_quote();
    assert_eq!(q.text, "The only way to do great work is to love what you do.");
    assert_eq!(q.author, "Steve Jobs");
    assert!(q.source.is_none());
    assert!(q.date.is_none());
}

#[test]
fn longest_line_is_found() {
    let lines = vec!["ab ".to_string(), "".to_string(), "abcd ".to_string(), "x ".to_string()];
    assert_eq!(max_line_length(&lines), 5);
    let empty: Vec<String> = Vec::new();
    assert_eq!(max_line_length(&empty), 0);
}

#[test]
fn source_line_joins_source_and_date() {
    let s = source_line(&Some("Interview".to_string()), &Some("2005".to_string()));
    assert_eq!(s, "Interview 2005");
    let only_source = source_line(&Some("Interview".to_string()), &None);
    assert_eq!(only_source, "Interview ");
    let neither = source_line(&None, &None);
    assert_eq!(neither, " ");
}

#[test]
fn source_and_author_rows_anchor_right_of_longest_line() {
    // Source text ends 2 cells inside the right edge, 2 rows below the quote.
    assert_eq!(source_anchor(10, 50, 14, 5, 3), (44, 10));
    // Author text ends 4 cells inside the right edge, 3 rows below the quote.
    assert_eq!(author_anchor(10, 50, 6, 5, 3), (50, 11));
}
