use nerdcli::quotes::Quote;
use nerdcli::wrap::calculate_quote_layout;
use nerdcli::wrap::wrap_text;

fn quote_with_text(text: &str) -> Quote {
    Quote {
        text: text.to_string(),
        author: "nobody".to_string(),
        source: None,
        date: None,
    }
}

#[test]
fn blank_line_is_preserved() {
    let lines = wrap_text("a\n\nb", 50);
    assert_eq!(lines, vec!["a ".to_string(), "".to_string(), "b ".to_string()]);
    assert_eq!(lines.len(), 3);
    assert!(lines[1].is_empty());
}

#[test]
fn famous_quote_at_width_fifty() {
    let lines = wrap_text("The only way to do great work is to love what you do.", 50);
    assert_eq!(
        lines,
        vec![
            "The only way to do great work is to love what you ".to_string(),
            "do. ".to_string(),
        ]
    );
}

#[test]
fn empty_text_gives_one_empty_line() {
    let lines = wrap_text("", 50);
    assert_eq!(lines, vec!["".to_string()]);
}

#[test]
fn simple_packing_keeps_trailing_spaces() {
    let lines = wrap_text("aa bb cc", 5);
    assert_eq!(lines, vec!["aa bb ".to_string(), "cc ".to_string()]);
}

#[test]
fn overlong_word_gets_its_own_line() {
    let lines = wrap_text("abcdefghijkl", 5);
    assert_eq!(lines, vec!["".to_string(), "abcdefghijkl ".to_string()]);
}

#[test]
fn repeated_spaces_collapse() {
    let lines = wrap_text("a  b", 50);
    assert_eq!(lines, vec!["a b ".to_string()]);
}

#[test]
fn words_are_preserved_in_order() {
    let text = "one two three\nfour five six seven eight nine ten";
    let lines = wrap_text(text, 10);
    let rejoined: Vec<&str> = lines
        .iter()
        .flat_map(|l| l.split_whitespace())
        .collect();
    let expected: Vec<&str> = text.split_whitespace().collect();
    assert_eq!(rejoined, expected);
}

#[test]
fn line_budget_is_respected_except_overlong_words() {
    let text = "a bb ccc dddd eeeee ffffff ggggggggggggggggggggggg h";
    let width = 12;
    let lines = wrap_text(text, width);
    for line in &lines {
        let content = line.trim_end_matches(' ');
        let single_word = line.split_whitespace().count() == 1;
        assert!(content.chars().count() <= width || single_word);
    }
}

#[test]
fn width_is_measured_in_characters() {
    // Accented characters count as one each, however many bytes they take.
    let lines = wrap_text("h\u{e9}llo w\u{f6}rld", 6);
    assert_eq!(lines, vec!["h\u{e9}llo ".to_string(), "w\u{f6}rld ".to_string()]);
}

#[test]
fn quote_layout_wraps_quote_text() {
    let q = quote_with_text("The only way to do great work is to love what you do.");
    let lines = calculate_quote_layout(&q, 50);
    assert_eq!(lines.len(), 2);
    assert_eq!(lines[0], "The only way to do great work is to love what you ");
    assert_eq!(lines[1], "do. ");
}
