use piscine::formatting::{format_string, FormatValue, Print};

#[test]
fn test_u32() {
    let mut buffer = String::new();

    42u32.print(&mut buffer).unwrap();
    assert_eq!(buffer, "42");
}

#[test]
fn format_string_test() {
    let s: String = format_string(
        "salut % les % gens!",
        &[FormatValue::Num(14), FormatValue::Text("Hello!".to_string())],
    )
    .unwrap();
    assert_eq!(s, "salut 14 les Hello! gens!");
}

#[test]
fn zero_prints_one_digit() {
    let mut buffer = String::new();
    0u32.print(&mut buffer).unwrap();
    assert_eq!(buffer, "0");
}
