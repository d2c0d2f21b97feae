use stackvm::numeric::{i64_text, parse_i64, parse_usize, usize_text};
use stackvm::stack::Stack;
use stackvm::text::{chars_of, same_chars, string_of};

#[test]
fn stack_is_last_in_first_out() {
    let mut s: Stack<u32> = Stack::new();
    assert!(s.pop().is_none());
    s.push(1);
    s.push(2);
    assert_eq!(s.len(), 2);
    assert_eq!(*s.peek_last().unwrap(), 2);
    *s.peek_mut(0).unwrap() = 10;
    *s.peek_last_mut().unwrap() = 20;
    assert!(s.peek_mut(2).is_none());
    assert_eq!(s.pop(), Some(20));
    assert_eq!(s.pop(), Some(10));
    assert_eq!(s.len(), 0);
    let t = Stack::from_vec(vec![7u32, 8]);
    assert_eq!(*t.peek_last().unwrap(), 8);
}

#[test]
fn decimal_parsing() {
    let c = |s: &str| s.chars().collect::<Vec<char>>();
    assert_eq!(parse_usize(&c("0")), Some(0));
    assert_eq!(parse_usize(&c("42")), Some(42));
    assert_eq!(parse_usize(&c("")), None);
    assert_eq!(parse_usize(&c("-1")), None);
    assert_eq!(parse_usize(&c("1.0")), None);
    assert_eq!(parse_usize(&c("99999999999999999999999")), None);
    assert_eq!(parse_i64(&c("-9223372036854775808")), Some(i64::MIN));
    assert_eq!(parse_i64(&c("9223372036854775807")), Some(i64::MAX));
    assert_eq!(parse_i64(&c("9223372036854775808")), None);
    assert_eq!(parse_i64(&c("+17")), Some(17));
    assert_eq!(parse_i64(&c("-")), None);
    assert_eq!(parse_i64(&c("1_0")), None);
}

#[test]
fn decimal_writing() {
    let s = |v: Vec<char>| v.into_iter().collect::<String>();
    assert_eq!(s(usize_text(0)), "0");
    assert_eq!(s(usize_text(1200)), "1200");
    assert_eq!(s(i64_text(-45)), "-45");
    assert_eq!(s(i64_text(i64::MIN)), "-9223372036854775808");
    assert_eq!(s(i64_text(i64::MAX)), "9223372036854775807");
}

#[test]
fn text_conversions() {
    let v = chars_of("a\u{f1}b");
    assert_eq!(v, vec!['a', '\u{f1}', 'b']);
    assert_eq!(string_of(&v), "a\u{f1}b");
    assert!(same_chars(&v, &['a', '\u{f1}', 'b']));
    assert!(!same_chars(&v, &['a', 'n', 'b']));
    assert!(!same_chars(&v, &['a']));
}
