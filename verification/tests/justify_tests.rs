use piscine::justify::{justified_line, paragraph_lines};

#[test]
fn spreads_spare_columns_from_the_left() {
    let words = vec!["aa".to_string(), "b".to_string(), "c".to_string()];
    assert_eq!(justified_line(&words, 9), "aa   b  c");
    assert_eq!(justified_line(&words, 6), "aa b c");
}

#[test]
fn single_word_stands_alone() {
    let words = vec!["lonely".to_string()];
    assert_eq!(justified_line(&words, 40), "lonely");
}

#[test]
fn paragraphs_break_and_justify() {
    let words: Vec<String> = "the quick brown fox jumps"
        .split_whitespace()
        .map(|w| w.to_string())
        .collect();
    let lines = paragraph_lines(&words, 11);
    assert_eq!(lines, vec!["the   quick", "brown   fox", "jumps"]);
}

#[test]
fn an_overlong_word_gets_its_own_line() {
    let words: Vec<String> = "a extraordinarily b"
        .split_whitespace()
        .map(|w| w.to_string())
        .collect();
    let lines = paragraph_lines(&words, 5);
    assert_eq!(lines, vec!["a", "extraordinarily", "b"]);
}
