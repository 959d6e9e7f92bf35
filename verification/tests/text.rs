use tradeup::text::{parse_i32, push_decimal, push_signed_decimal, str_eq, str_lt};

#[test]
fn decimal_numerals() {
    let mut s = String::new();
    push_decimal(&mut s, 0);
    assert_eq!(s, "0");
    let mut s = String::from("n=");
    push_decimal(&mut s, 1200);
    assert_eq!(s, "n=1200");
    let mut s = String::new();
    push_decimal(&mut s, u64::MAX);
    assert_eq!(s, u64::MAX.to_string());
    let mut s = String::new();
    push_signed_decimal(&mut s, -42);
    assert_eq!(s, "-42");
    let mut s = String::new();
    push_signed_decimal(&mut s, i64::MIN);
    assert_eq!(s, i64::MIN.to_string());
}

#[test]
fn parse_i32_matches_std() {
    for t in ["0", "-0", "+7", "123", "-2147483648", "2147483647", "2147483648", "-2147483649", "", "-", "+", "12a", " 1", "1 ", "+-1", "007", "99999999999"] {
        assert_eq!(parse_i32(t), t.parse::<i32>().ok(), "text {:?}", t);
    }
}

#[test]
fn decimal_then_parse_round_trips() {
    for n in [0i32, 1, -1, 9, 10, -10, 123456, i32::MAX, i32::MIN] {
        let mut s = String::new();
        push_signed_decimal(&mut s, n as i64);
        assert_eq!(parse_i32(&s), Some(n));
    }
}

#[test]
fn string_order_is_by_code_point() {
    assert!(str_lt("AK-47", "AWP"));
    assert!(!str_lt("AWP", "AK-47"));
    assert!(str_lt("Glock", "Glock-18"));
    assert!(!str_lt("Glock", "Glock"));
    assert!(str_lt("", "a"));
    assert!(str_lt("Z", "a"));
    assert!(str_lt("é", "ê"));
    assert_eq!(str_lt("Ü", "U"), "Ü" < "U");
    assert!(str_eq("M4A1-S", "M4A1-S"));
    assert!(!str_eq("M4A1-S", "M4A1"));
}
