use scene_core::tile_collider::{is_ignore_char, is_number_char, TokenIter};

#[test]
fn empty() {
    let mut iter = TokenIter::new("");
    assert_eq!(iter.next(), None);
}

#[test]
fn empty2() {
    let mut iter = TokenIter::new("   ");
    assert_eq!(iter.next(), None);
}

#[test]
fn comma() {
    let mut iter = TokenIter::new("0,1");
    assert_eq!(iter.next().unwrap(), "0");
    assert_eq!(iter.next().unwrap(), ",");
    assert_eq!(iter.next().unwrap(), "1");
    assert_eq!(iter.next(), None);
}

#[test]
fn comma2() {
    let mut iter = TokenIter::new(" 0.4 , -1 ");
    assert_eq!(iter.next().unwrap(), "0.4");
    assert_eq!(iter.next().unwrap(), ",");
    assert_eq!(iter.next().unwrap(), "-1");
    assert_eq!(iter.next(), None);
}

#[test]
fn comma3() {
    let mut iter = TokenIter::new(",, ,");
    assert_eq!(iter.next().unwrap(), ",");
    assert_eq!(iter.next().unwrap(), ",");
    assert_eq!(iter.next().unwrap(), ",");
    assert_eq!(iter.next(), None);
}

#[test]
fn number() {
    let mut iter = TokenIter::new("0");
    assert_eq!(iter.next().unwrap(), "0");
    assert_eq!(iter.next(), None);
}

#[test]
fn number2() {
    let mut iter = TokenIter::new("-3.14");
    assert_eq!(iter.next().unwrap(), "-3.14");
    assert_eq!(iter.next(), None);
}

#[test]
fn number3() {
    let mut iter = TokenIter::new("  -3.14 ");
    assert_eq!(iter.next().unwrap(), "-3.14");
    assert_eq!(iter.next(), None);
}

#[test]
fn classify_chars() {
    assert!(is_number_char('0'));
    assert!(is_number_char('9'));
    assert!(is_number_char('.'));
    assert!(is_number_char('-'));
    assert!(!is_number_char(','));
    assert!(!is_number_char(' '));
    assert!(is_ignore_char(' '));
    assert!(is_ignore_char('('));
    assert!(is_ignore_char(']'));
    assert!(!is_ignore_char(','));
    assert!(!is_ignore_char('7'));
}

#[test]
fn brackets_are_noise() {
    let mut iter = TokenIter::new("(0,0) [1,2,3]");
    assert_eq!(iter.next().unwrap(), "0");
    assert_eq!(iter.next().unwrap(), ",");
    assert_eq!(iter.next().unwrap(), "0");
    assert_eq!(iter.next().unwrap(), "1");
    assert_eq!(iter.next().unwrap(), ",");
    assert_eq!(iter.next().unwrap(), "2");
    assert_eq!(iter.next().unwrap(), ",");
    assert_eq!(iter.next().unwrap(), "3");
    assert_eq!(iter.next(), None);
}
