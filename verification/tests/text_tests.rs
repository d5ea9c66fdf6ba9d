use mkg_starship::text::{
    parse_i32_range, parse_i64_range, push_int, push_nat, split_ranges, str_chars, trim_bounds,
};

fn i32_of(s: &str) -> Option<i32> {
    let c = str_chars(s);
    parse_i32_range(&c, 0, c.len())
}

fn i64_of(s: &str) -> Option<i64> {
    let c = str_chars(s);
    parse_i64_range(&c, 0, c.len())
}

#[test]
fn parse_i32_matches_std() {
    for s in ["0", "-0", "+7", "-2147483648", "2147483647", "2147483648", "", "-", "+", "1 2", "0012", "١٢", "+-1", "12a"] {
        assert_eq!(i32_of(s), s.parse::<i32>().ok(), "input {:?}", s);
    }
}

#[test]
fn parse_i64_matches_std() {
    for s in ["9223372036854775807", "-9223372036854775808", "9223372036854775808", "000000000000000000000000000042", "-", "99999999999999999999999999"] {
        assert_eq!(i64_of(s), s.parse::<i64>().ok(), "input {:?}", s);
    }
}

#[test]
fn trim_matches_std() {
    for s in ["  a b  ", "\u{3000}x\u{2028}", "\t\n", "", "y", "\u{85}z\u{a0}"] {
        let c = str_chars(s);
        let (a, b) = trim_bounds(&c, 0, c.len());
        let got: String = c[a..b].iter().collect();
        assert_eq!(got, s.trim(), "input {:?}", s);
    }
}

#[test]
fn split_matches_std() {
    for s in ["a,b,,c", "", ",", "abc", ",x,"] {
        let c = str_chars(s);
        let r = split_ranges(&c, 0, c.len(), ',');
        let got: Vec<String> = r.iter().map(|&(a, b)| c[a..b].iter().collect()).collect();
        let want: Vec<String> = s.split(',').map(|p| p.to_string()).collect();
        assert_eq!(got, want, "input {:?}", s);
    }
}

#[test]
fn decimal_text_matches_display() {
    for n in [0u64, 9, 10, 1234567890, u64::MAX] {
        let mut s = String::new();
        push_nat(&mut s, n);
        assert_eq!(s, n.to_string());
    }
    for i in [0i64, -1, 42, i64::MIN, i64::MAX] {
        let mut s = String::from("x");
        push_int(&mut s, i);
        assert_eq!(s, format!("x{}", i));
    }
}
