use namesilo_dyndns::ip::Ipv4;
use namesilo_dyndns::ip_fetcher::IpFetcher;

#[test]
fn parser_finds_plain_address() {
    assert_eq!(IpFetcher::text_to_ipv4("1.2.3.4"), Some(Ipv4::new(1, 2, 3, 4)));
}

#[test]
fn parser_finds_embedded_address() {
    let text = "{\n  \"origin\": \"85.228.205.114\"\n}";
    assert_eq!(IpFetcher::text_to_ipv4(text), Some(Ipv4::new(85, 228, 205, 114)));
    let html = "<html><body>Your IP is 203.0.113.9 today</body></html>";
    assert_eq!(IpFetcher::text_to_ipv4(html), Some(Ipv4::new(203, 0, 113, 9)));
}

#[test]
fn parser_takes_first_of_several() {
    let text = "first 10.0.0.1 then 192.168.1.1";
    assert_eq!(IpFetcher::text_to_ipv4(text), Some(Ipv4::new(10, 0, 0, 1)));
}

#[test]
fn parser_fails_without_pattern() {
    assert_eq!(IpFetcher::text_to_ipv4(""), None);
    assert_eq!(IpFetcher::text_to_ipv4("no address here"), None);
    assert_eq!(IpFetcher::text_to_ipv4("1.2.3"), None);
    assert_eq!(IpFetcher::text_to_ipv4("1..2.3.4"), None);
}

#[test]
fn parser_rejects_octet_above_255() {
    assert_eq!(IpFetcher::text_to_ipv4("999.1.1.1"), None);
    assert_eq!(IpFetcher::text_to_ipv4("1.2.3.999"), None);
    assert_eq!(IpFetcher::text_to_ipv4("255.255.255.255"), Some(Ipv4::new(255, 255, 255, 255)));
    assert_eq!(IpFetcher::text_to_ipv4("256.255.255.255"), None);
}

#[test]
fn parser_rejects_leading_zeros() {
    assert_eq!(IpFetcher::text_to_ipv4("01.2.3.4"), None);
    assert_eq!(IpFetcher::text_to_ipv4("0.0.0.0"), Some(Ipv4::new(0, 0, 0, 0)));
}

#[test]
fn parser_matches_inside_longer_digit_run() {
    // The pattern match cannot start inside a four-digit run; it starts one
    // character later, as leftmost-first matching does.
    assert_eq!(IpFetcher::text_to_ipv4("1234.5.6.7"), Some(Ipv4::new(234, 5, 6, 7)));
    // The fourth group takes at most three digits of a longer run; here they
    // read 456, which no octet can hold.
    assert_eq!(IpFetcher::text_to_ipv4("1.2.3.45678"), None);
    assert_eq!(IpFetcher::text_to_ipv4("1.2.3.45 "), Some(Ipv4::new(1, 2, 3, 45)));
}

#[test]
fn consensus_majority_wins() {
    let bodies = vec![
        Some("1.2.3.4".to_string()),
        Some("1.2.3.4".to_string()),
        Some("5.6.7.8".to_string()),
        None,
    ];
    assert_eq!(IpFetcher::consensus(&bodies), Some(Ipv4::new(1, 2, 3, 4)));
}

#[test]
fn consensus_absent_when_nothing_parses() {
    let bodies: Vec<Option<String>> = vec![None, None, Some("garbage".to_string())];
    assert_eq!(IpFetcher::consensus(&bodies), None);
    let empty: Vec<Option<String>> = vec![];
    assert_eq!(IpFetcher::consensus(&empty), None);
}

#[test]
fn dotted_notation_is_exact() {
    assert_eq!(Ipv4::new(0, 0, 0, 0).to_dotted(), "0.0.0.0");
    assert_eq!(Ipv4::new(255, 255, 255, 255).to_dotted(), "255.255.255.255");
    assert_eq!(Ipv4::new(85, 228, 205, 114).to_dotted(), "85.228.205.114");
    assert_eq!(Ipv4::new(10, 0, 42, 7).to_dotted(), "10.0.42.7");
}
