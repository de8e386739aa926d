use cubert::text::{contains, join, push_decimal, push_zero_padded, starts_with, str_eq, to_ascii_lower};

#[test]
fn decimal_rendering() {
    let mut s = String::new();
    push_decimal(&mut s, 0);
    assert_eq!(s, "0");
    let mut s = String::from("n=");
    push_decimal(&mut s, 1_234_567_890);
    assert_eq!(s, "n=1234567890");
    let mut s = String::new();
    push_decimal(&mut s, u64::MAX);
    assert_eq!(s, u64::MAX.to_string());
}

#[test]
fn zero_padding() {
    let mut s = String::new();
    push_zero_padded(&mut s, 7, 6);
    assert_eq!(s, "000007");
    let mut s = String::new();
    push_zero_padded(&mut s, 1_234_567, 6);
    assert_eq!(s, "1234567");
    let mut s = String::new();
    push_zero_padded(&mut s, 0, 3);
    assert_eq!(s, "000");
}

#[test]
fn text_equality_and_search() {
    assert!(str_eq("AAPL", "AAPL"));
    assert!(!str_eq("AAPL", "AAP"));
    assert!(!str_eq("AAPL", "AAPM"));
    assert!(starts_with("sqlite:cubert.db", "sqlite:"));
    assert!(!starts_with("postgres://x", "sqlite:"));
    assert!(contains("a?mode=ro", "mode="));
    assert!(!contains("abc", "abd"));
    assert!(contains("abc", ""));
}

#[test]
fn joining_and_lowering() {
    let items = vec!["AAPL".to_string(), "TSLA".to_string(), "NVDA".to_string()];
    assert_eq!(join(&items, ","), "AAPL,TSLA,NVDA");
    assert_eq!(join(&Vec::new(), ","), "");
    assert_eq!(join(&vec!["X".to_string()], ","), "X");
    assert_eq!(to_ascii_lower("DeBuG-Ünï"), "debug-Ünï");
}
