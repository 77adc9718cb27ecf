use ipv6_checker::extract::extract_ipv6;
use ipv6_checker::extract::is_ipv6;

#[test]
fn full_form_in_text() {
    let text = "your address is 2001:0db8:85a3:0000:0000:8a2e:0370:7334 today";
    assert_eq!(extract_ipv6(text), Some("2001:0db8:85a3:0000:0000:8a2e:0370:7334".to_string()));
}

#[test]
fn compressed_form_in_text() {
    let text = "<html><body>2001:db8::1</body></html>";
    assert_eq!(extract_ipv6(text), Some("2001:db8::1".to_string()));
}

#[test]
fn bare_address_body() {
    assert_eq!(extract_ipv6("240e:3b5:4a00:1::2"), Some("240e:3b5:4a00:1::2".to_string()));
}

#[test]
fn loopback_in_text() {
    assert_eq!(extract_ipv6("ping ::1 ok"), Some("::1".to_string()));
}

#[test]
fn unspecified_address() {
    assert_eq!(extract_ipv6("::"), Some("::".to_string()));
}

#[test]
fn ipv4_mapped_in_text() {
    let text = "mapped ::ffff:192.0.2.128 end";
    assert_eq!(extract_ipv6(text), Some("::ffff:192.0.2.128".to_string()));
}

#[test]
fn ipv4_tail_full_form() {
    let text = "x 1:2:3:4:5:6:77.88.99.100 y";
    assert_eq!(extract_ipv6(text), Some("1:2:3:4:5:6:77.88.99.100".to_string()));
}

#[test]
fn first_of_two_literals_wins() {
    let text = "first ::1 then 2001:db8::2 later";
    assert_eq!(extract_ipv6(text), Some("::1".to_string()));
}

#[test]
fn first_of_two_literals_wins_reversed() {
    let text = "first 2001:db8::2 then ::1 later";
    assert_eq!(extract_ipv6(text), Some("2001:db8::2".to_string()));
}

#[test]
fn longest_literal_at_first_position() {
    // eight groups are valid, the ninth cannot be part of the literal
    let text = "1:2:3:4:5:6:7:8:9";
    assert_eq!(extract_ipv6(text), Some("1:2:3:4:5:6:7:8".to_string()));
}

#[test]
fn zone_id_stops_the_literal() {
    // '%' can never be part of the literal itself
    assert_eq!(extract_ipv6("fe80::1%eth0"), Some("fe80::1".to_string()));
}

#[test]
fn embedded_literal_after_bad_prefix() {
    // "gggg" is no hex group, but "::1" stands on its own further right
    assert_eq!(extract_ipv6("gggg::1"), Some("::1".to_string()));
}

#[test]
fn no_literal_in_plain_text() {
    assert_eq!(extract_ipv6("no address here"), None);
}

#[test]
fn empty_text() {
    assert_eq!(extract_ipv6(""), None);
}

#[test]
fn truncated_literal_rejected() {
    assert_eq!(extract_ipv6("1234:5678"), None);
}

#[test]
fn seven_groups_rejected() {
    assert_eq!(extract_ipv6("1:2:3:4:5:6:7"), None);
}

#[test]
fn is_ipv6_accepts_valid_forms() {
    assert!(is_ipv6("::"));
    assert!(is_ipv6("::1"));
    assert!(is_ipv6("2001:db8::1"));
    assert!(is_ipv6("2001:DB8::A"));
    assert!(is_ipv6("1:2:3:4:5:6:7:8"));
    assert!(is_ipv6("1:2:3:4:5:6:7::"));
    assert!(is_ipv6("::ffff:192.0.2.1"));
    assert!(is_ipv6("1:2:3:4:5:6:77.88.99.100"));
    assert!(is_ipv6("fe80::"));
    assert!(is_ipv6("64:ff9b::192.0.2.33"));
}

#[test]
fn is_ipv6_rejects_invalid_forms() {
    assert!(!is_ipv6(""));
    assert!(!is_ipv6(":"));
    assert!(!is_ipv6(":::"));
    assert!(!is_ipv6("1:2:3:4:5:6:7"));
    assert!(!is_ipv6("1:2:3:4:5:6:7:8:9"));
    assert!(!is_ipv6("1:2:3:4:5:6:7:8::"));
    assert!(!is_ipv6("12345::"));
    assert!(!is_ipv6("gggg::1"));
    assert!(!is_ipv6("1::2::3"));
    assert!(!is_ipv6("fe80::1%eth0"));
    assert!(!is_ipv6("1.2.3.4"));
    assert!(!is_ipv6("::ffff:192.0.2.256"));
    assert!(!is_ipv6("::ffff:01.2.3.4"));
    assert!(!is_ipv6("2001:db8:::1"));
    assert!(!is_ipv6("1:"));
    assert!(!is_ipv6(":1::"));
}
