use piscine::shell::{next_token, Token};

#[test]
fn tokenizes_words_and_operators() {
    let mut s = "  echo hi>out.txt | cat <in";
    assert!(matches!(next_token(&mut s), Some(Token::Word("echo"))));
    assert!(matches!(next_token(&mut s), Some(Token::Word("hi"))));
    assert!(matches!(next_token(&mut s), Some(Token::RedirectStdout)));
    assert!(matches!(next_token(&mut s), Some(Token::Word("out.txt"))));
    assert!(matches!(next_token(&mut s), Some(Token::Pipe)));
    assert!(matches!(next_token(&mut s), Some(Token::Word("cat"))));
    assert!(matches!(next_token(&mut s), Some(Token::RedirectStdin)));
    assert!(matches!(next_token(&mut s), Some(Token::Word("in"))));
    assert!(next_token(&mut s).is_none());
}

#[test]
fn only_whitespace_yields_nothing() {
    let mut s = " \t ";
    assert!(next_token(&mut s).is_none());
}
