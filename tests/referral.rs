use whois::referral::extract_referral;

fn referral(line: &str) -> Option<String> {
    extract_referral(line)
}

#[test]
fn whois_server_line_keeps_trailing_period() {
    // A period may end a host name, so only what follows it would be trimmed.
    assert_eq!(referral("Whois Server:   example.net."), Some("example.net.".to_string()));
    assert_eq!(referral("Whois Server:   Example.NET.\r\n"), Some("example.net.".to_string()));
    assert_eq!(referral("Whois Server:   example.net  \n"), Some("example.net".to_string()));
}

#[test]
fn line_ending_is_not_part_of_the_host() {
    assert_eq!(referral("   Whois Server: whois.example.net\r\n"), Some("whois.example.net".to_string()));
}

#[test]
fn wrong_case_prefix_is_no_referral() {
    assert_eq!(referral("WHOIS SERVER: Example.COM"), None);
}

#[test]
fn host_is_lowercased() {
    assert_eq!(referral("Whois Server: Example.COM"), Some("example.com".to_string()));
}

#[test]
fn iana_refer_line() {
    assert_eq!(
        referral("whois:        whois.verisign-grs.com\n"),
        Some("whois.verisign-grs.com".to_string())
    );
}

#[test]
fn registrar_line_after_indentation() {
    assert_eq!(
        referral("   Registrar WHOIS Server: WHOIS.GoDaddy.com\n"),
        Some("whois.godaddy.com".to_string())
    );
}

#[test]
fn referral_server_url_loses_trailing_slash() {
    assert_eq!(
        referral("ReferralServer:  whois://whois.ripe.net/\n"),
        Some("whois.ripe.net".to_string())
    );
}

#[test]
fn referral_server_url_keeps_port() {
    assert_eq!(
        referral("ReferralServer:  whois://rwhois.example.net:4321/"),
        Some("rwhois.example.net:4321".to_string())
    );
}

#[test]
fn regional_descr_line() {
    assert_eq!(
        referral("descr:          region. Please query WHOIS.APNIC.NET\n"),
        Some("whois.apnic.net".to_string())
    );
}

#[test]
fn descr_line_with_other_spacing_is_no_referral() {
    assert_eq!(referral("descr: region. Please query whois.apnic.net"), None);
}

#[test]
fn ordinary_record_line_is_no_referral() {
    assert_eq!(referral("domain:       EXAMPLE.COM\n"), None);
    assert_eq!(referral(""), None);
    assert_eq!(referral("\n"), None);
}

#[test]
fn prefix_must_begin_the_line() {
    assert_eq!(referral("refer whois: whois.example.net"), None);
}

#[test]
fn prefix_without_host_gives_empty_host() {
    assert_eq!(referral("whois:   \n"), Some(String::new()));
}

#[test]
fn unicode_whitespace_is_trimmed() {
    assert_eq!(referral("\u{3000}whois:\u{A0}whois.example.org."), Some("whois.example.org.".to_string()));
}
