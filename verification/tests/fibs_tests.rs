use piscine::fibs::{even_fibs_bellow_1000, Fibs};

#[test]
fn first_fibs() {
    let mut fibs = Fibs::new(0, 1);

    assert_eq!(fibs.next(), Some(0));
    assert_eq!(fibs.next(), Some(1));
    assert_eq!(fibs.next(), Some(1));
    assert_eq!(fibs.next(), Some(2));
    assert_eq!(fibs.next(), Some(3));
    assert_eq!(fibs.next(), Some(5));
}

#[test]
fn fibs_count() {
    let mut fibs = Fibs::new(0, 1);
    let mut count = 0;
    while fibs.next().is_some() {
        count += 1;
    }
    assert_eq!(count, 48);
}

#[test]
fn lib_test() {
    let mut fibs = Fibs::new(0, 1);
    let mut count = 0;
    while let Some(fib) = fibs.next() {
        if fib >= 1000 {
            break;
        }
        if fib % 2 == 0 {
            count += fib;
        }
    }

    assert_eq!(count, 798);
}

#[test]
fn test_event_fibs_bellow_1000() {
    assert_eq!(even_fibs_bellow_1000(), 798);
}
