use piscine::glob::strpcmp;

#[test]
fn exact_match() {
    assert!(strpcmp(b"abc", b"abc"));
    assert!(strpcmp(b"", b""));
    assert!(strpcmp(b"hello", b"hello"));

    assert!(!strpcmp(b"", b"abc"));
    assert!(!strpcmp(b"abc", b""));
    assert!(!strpcmp(b"abc", b"def"));
}

#[test]
fn match_begining() {
    assert!(strpcmp(b"ab", b"ab*"));
    assert!(strpcmp(b"abc", b"ab*"));
    assert!(strpcmp(b"abcd", b"ab*"));

    assert!(!strpcmp(b"aab", b"ab*"));
}

#[test]
fn match_end() {
    assert!(strpcmp(b"ab", b"*ab"));
    assert!(strpcmp(b"cab", b"*ab"));
    assert!(strpcmp(b"dcab", b"*ab"));

    assert!(!strpcmp(b"abc", b"*ab"));
}

#[test]
fn match_start_and_end() {
    assert!(strpcmp(b"abcd", b"ab*cd"));
    assert!(strpcmp(b"ab0cd", b"ab*cd"));
    assert!(strpcmp(b"ab00cd", b"ab*cd"));
    assert!(strpcmp(b"ababcd", b"ab*cd"));

    assert!(!strpcmp(b"ab0dd", b"ab*cd"));
    assert!(!strpcmp(b"ab0cdd", b"ab*cd"));
    assert!(!strpcmp(b"bb0cd", b"ab*cd"));
    assert!(!strpcmp(b"aab0cd", b"ab*cd"));
}

#[test]
fn contains_substring() {
    assert!(strpcmp(b"ab000ab", b"*000*"));
    assert!(strpcmp(b"000", b"*000*"));
    assert!(strpcmp(b"000ab", b"*000*"));
    assert!(strpcmp(b"ab000", b"*000*"));

    assert!(!strpcmp(b"ab00", b"*000*"));
    assert!(!strpcmp(b"ab00ab", b"*000*"));
    assert!(!strpcmp(b"00ab", b"*000*"));
}

#[test]
fn full_match() {
    assert!(strpcmp(b"", b"*"));
    assert!(strpcmp(b"abc", b"*"));
}

#[test]
fn every_query_matches_itself() {
    assert!(strpcmp(b"plain", b"plain"));
    assert!(strpcmp(b"a*b", b"a*b"));
    assert!(strpcmp(b"**", b"**"));
}

#[test]
fn empty_query_needs_all_wildcards() {
    assert!(strpcmp(b"", b"***"));
    assert!(!strpcmp(b"", b"*a*"));
    assert!(!strpcmp(b"", b"x"));
}

#[test]
fn collapsed_wildcard_runs_agree() {
    let queries: [&[u8]; 6] = [b"abcd", b"ab0cd", b"ab00cd", b"ababcd", b"ab0cdd", b""];
    for q in queries {
        assert_eq!(strpcmp(q, b"ab**cd"), strpcmp(q, b"ab*cd"));
        assert_eq!(strpcmp(q, b"ab****cd"), strpcmp(q, b"ab*cd"));
        assert_eq!(strpcmp(q, b"***"), strpcmp(q, b"*"));
    }
}
