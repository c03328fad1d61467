use piscine::fizzbuzz::{classify, Shout};

#[test]
fn shouts_follow_the_rules() {
    assert_eq!(classify(15), Shout::FizzBuzz);
    assert_eq!(classify(9), Shout::Fizz);
    assert_eq!(classify(10), Shout::Buzz);
    assert_eq!(classify(14), Shout::LoudFizz);
    assert_eq!(classify(16), Shout::LoudBuzz);
    assert_eq!(classify(1), Shout::Plain);
}
