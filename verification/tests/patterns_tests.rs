use piscine::patterns::{
    alphabetic, and, anything, ascii_digits, chain, exactly, maybe, min_size, not, or,
};

#[test]
fn email() {
    let pattern = chain(
        chain(and(alphabetic(), min_size(1)), exactly("@")),
        chain(
            and(alphabetic(), min_size(1)),
            or(exactly(".fr"), exactly(".com")),
        ),
    );

    assert!(pattern.is_match("my@address.com"));
    assert!(pattern.is_match("a@b.fr"));
    assert!(!pattern.is_match("@example.com"));
    assert!(!pattern.is_match("abc@.com"));
    assert!(!pattern.is_match("my@address.net"));
    assert!(!pattern.is_match("myaddress.fr"));
    assert!(!pattern.is_match("my-address@domain.fr"));
    assert!(!pattern.is_match("address@my-domain.fr"));
}

#[test]
fn parens() {
    let pattern = chain(
        chain(
            exactly("("),
            not(or(
                chain(chain(anything(), exactly("(")), anything()),
                chain(chain(anything(), exactly(")")), anything()),
            )),
        ),
        exactly(")"),
    );

    assert!(pattern.is_match("()"));
    assert!(pattern.is_match("(hello)"));
    assert!(pattern.is_match("(hello 123)"));
    assert!(!pattern.is_match("(hello () 123)"));
    assert!(!pattern.is_match("(hello "));
    assert!(!pattern.is_match(")"));
    assert!(!pattern.is_match(" (test) "));
}

#[test]
fn decimal() {
    let pattern = chain(
        maybe(or(exactly("+"), exactly("-"))),
        chain(
            and(ascii_digits(), min_size(1)),
            chain(
                maybe(chain(exactly("."), and(ascii_digits(), min_size(1)))),
                maybe(chain(
                    or(exactly("e"), exactly("E")),
                    chain(
                        maybe(or(exactly("+"), exactly("-"))),
                        and(ascii_digits(), min_size(1)),
                    ),
                )),
            ),
        ),
    );

    assert!(pattern.is_match("12"));
    assert!(pattern.is_match("+12"));
    assert!(pattern.is_match("-12"));
    assert!(pattern.is_match("12.5"));
    assert!(pattern.is_match("12.5e20"));
    assert!(pattern.is_match("12E10"));
    assert!(pattern.is_match("12E+9"));
    assert!(pattern.is_match("12E-9"));
    assert!(!pattern.is_match(""));
    assert!(!pattern.is_match("+"));
    assert!(!pattern.is_match("+12."));
    assert!(!pattern.is_match("+12e"));
    assert!(!pattern.is_match("+12.e10"));
    assert!(!pattern.is_match("12e10.10"));
}
