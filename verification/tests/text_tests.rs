use statistik_import::text::{push_padded, push_signed, push_unsigned, str_eq};

#[test]
fn str_eq_compares_characters() {
    assert!(str_eq("", ""));
    assert!(str_eq("abc", "abc"));
    assert!(!str_eq("abc", "abd"));
    assert!(!str_eq("abc", "ab"));
    assert!(!str_eq("ab", "abc"));
    assert!(str_eq("Køretøj", "Køretøj"));
    assert!(!str_eq("Køretøj", "Koretoj"));
}

#[test]
fn push_padded_fills_up_with_spaces() {
    let mut out = String::from(">");
    push_padded(&mut out, "ab", 5);
    assert_eq!(out, ">ab   ");
}

#[test]
fn push_padded_leaves_long_text_as_it_is() {
    let mut out = String::new();
    push_padded(&mut out, "abcdef", 3);
    assert_eq!(out, "abcdef");
    let mut out = String::new();
    push_padded(&mut out, "abc", 3);
    assert_eq!(out, "abc");
    let mut out = String::new();
    push_padded(&mut out, "", 0);
    assert_eq!(out, "");
}

#[test]
fn push_padded_counts_characters() {
    let mut out = String::new();
    push_padded(&mut out, "øø", 4);
    assert_eq!(out, "øø  ");
}

#[test]
fn push_unsigned_writes_decimal() {
    let mut out = String::from("n=");
    push_unsigned(&mut out, 0);
    assert_eq!(out, "n=0");
    let mut out = String::new();
    push_unsigned(&mut out, 9);
    push_unsigned(&mut out, 10);
    push_unsigned(&mut out, 1234567890);
    assert_eq!(out, "9101234567890");
    let mut out = String::new();
    push_unsigned(&mut out, u64::MAX);
    assert_eq!(out, "18446744073709551615");
}

#[test]
fn push_signed_writes_the_sign() {
    let mut out = String::new();
    push_signed(&mut out, -1);
    assert_eq!(out, "-1");
    let mut out = String::new();
    push_signed(&mut out, 0);
    assert_eq!(out, "0");
    let mut out = String::new();
    push_signed(&mut out, 305);
    assert_eq!(out, "305");
    let mut out = String::new();
    push_signed(&mut out, i64::MIN);
    assert_eq!(out, "-9223372036854775808");
}
