use whois::config::{parse_args, parse_port, request_line, ArgumentError, Command, PortError};

fn args(v: &[&str]) -> Vec<String> {
    v.iter().map(|s| s.to_string()).collect()
}

#[test]
fn no_arguments_give_empty_query_and_defaults() {
    match parse_args(&args(&[])) {
        Ok(Command::Lookup(s)) => {
            assert_eq!(s.query, "");
            assert_eq!(s.host, "whois.iana.org");
            assert_eq!(s.port, 43);
            assert_eq!(request_line(&s.query), "\r\n");
        }
        other => panic!("unexpected {:?}", other),
    }
}

#[test]
fn request_line_ends_with_crlf() {
    assert_eq!(request_line("example.com"), "example.com\r\n");
}

#[test]
fn unparseable_port_is_an_error() {
    match parse_args(&args(&["-p", "abc"])) {
        Err(ArgumentError::BadPort { value, error }) => {
            assert_eq!(value, "abc");
            assert_eq!(error, PortError::InvalidDigit);
        }
        other => panic!("unexpected {:?}", other),
    }
}

#[test]
fn bad_port_before_help_is_still_an_error() {
    assert!(matches!(
        parse_args(&args(&["-p", "abc", "--help"])),
        Err(ArgumentError::BadPort { .. })
    ));
}

#[test]
fn help_wins_when_first() {
    assert!(matches!(parse_args(&args(&["example.com", "--help", "-p"])), Ok(Command::Help)));
}

#[test]
fn words_are_joined_with_spaces() {
    match parse_args(&args(&["a", "-p", "4343", "b", "-h", "WHOIS.ARIN.Net", "c"])) {
        Ok(Command::Lookup(s)) => {
            assert_eq!(s.query, "a b c");
            assert_eq!(s.host, "whois.arin.net");
            assert_eq!(s.port, 4343);
        }
        other => panic!("unexpected {:?}", other),
    }
}

#[test]
fn option_without_value_is_an_error() {
    match parse_args(&args(&["example.com", "-h"])) {
        Err(ArgumentError::MissingValue(o)) => assert_eq!(o, "-h"),
        other => panic!("unexpected {:?}", other),
    }
    match parse_args(&args(&["-p"])) {
        Err(ArgumentError::MissingValue(o)) => assert_eq!(o, "-p"),
        other => panic!("unexpected {:?}", other),
    }
}

#[test]
fn port_numbers() {
    assert_eq!(parse_port("43"), Ok(43));
    assert_eq!(parse_port("0"), Ok(0));
    assert_eq!(parse_port("65535"), Ok(65535));
    assert_eq!(parse_port("+80"), Ok(80));
    assert_eq!(parse_port("0043"), Ok(43));
}

#[test]
fn port_errors() {
    assert_eq!(parse_port(""), Err(PortError::Empty));
    assert_eq!(parse_port("+"), Err(PortError::InvalidDigit));
    assert_eq!(parse_port("-1"), Err(PortError::InvalidDigit));
    assert_eq!(parse_port(" 43"), Err(PortError::InvalidDigit));
    assert_eq!(parse_port("65536"), Err(PortError::TooLarge));
    assert_eq!(parse_port("99999a"), Err(PortError::TooLarge));
    assert_eq!(parse_port("9a9999"), Err(PortError::InvalidDigit));
}

#[test]
fn flags_only_give_empty_query() {
    match parse_args(&args(&["-h", "whois.ripe.net", "-p", "4343"])) {
        Ok(Command::Lookup(s)) => {
            assert_eq!(s.query, "");
            assert_eq!(request_line(&s.query), "\r\n");
            assert_eq!(s.host, "whois.ripe.net");
            assert_eq!(s.port, 4343);
        }
        other => panic!("unexpected {:?}", other),
    }
}
