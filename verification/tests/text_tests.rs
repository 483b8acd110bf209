use simple_discover::text::push_decimal;
use simple_discover::text::push_hex;

#[test]
fn decimal_digits() {
    for (n, text) in [(0u64, "0"), (7, "7"), (10, "10"), (4083, "4083"), (u64::MAX, "18446744073709551615")] {
        let mut s = String::from("n=");
        push_decimal(&mut s, n);
        assert_eq!(s, format!("n={}", text));
    }
}

#[test]
fn hexadecimal_digits() {
    let mut s = String::new();
    push_hex(&mut s, 0x53445343, 8);
    assert_eq!(s, "53445343");
    let mut s = String::new();
    push_hex(&mut s, 0xab, 4);
    assert_eq!(s, "00AB");
    let mut s = String::new();
    push_hex(&mut s, 0x1234, 2);
    assert_eq!(s, "34");
    let mut s = String::from("x");
    push_hex(&mut s, 5, 0);
    assert_eq!(s, "x");
}
