use whois::engine::{Resolver, Step};

fn feed(r: &mut Resolver, response: &[&str], out: &mut Vec<String>) {
    for line in response {
        out.push(line.to_string());
        r.feed_line(line);
    }
}

#[test]
fn answer_without_referral_ends_after_one_hop() {
    let response = ["domain: example.com\n", "status: active\n"];
    let mut r = Resolver::new("whois.iana.org".to_string());
    let mut out = Vec::new();
    let mut exchanges = Vec::new();
    exchanges.push(r.current_host().unwrap().to_string());
    feed(&mut r, &response, &mut out);
    assert!(matches!(r.finish_hop(), Ok(Step::Done)));
    assert_eq!(r.current_host(), None);
    assert_eq!(exchanges, vec!["whois.iana.org".to_string()]);
    assert_eq!(out.concat(), "domain: example.com\nstatus: active\n");
}

#[test]
fn two_hop_chain_queries_both_in_order() {
    let from_a = ["refer: x\n", "whois:        b.example\n", "more from a\n"];
    let from_b = ["record from b\n"];
    let mut r = Resolver::new("a.example".to_string());
    let mut out = Vec::new();
    let mut exchanges = Vec::new();
    exchanges.push(r.current_host().unwrap().to_string());
    feed(&mut r, &from_a, &mut out);
    match r.finish_hop() {
        Ok(Step::Next(h)) => assert_eq!(h, "b.example"),
        other => panic!("unexpected {:?}", other),
    }
    exchanges.push(r.current_host().unwrap().to_string());
    feed(&mut r, &from_b, &mut out);
    assert!(matches!(r.finish_hop(), Ok(Step::Done)));
    assert_eq!(r.current_host(), None);
    assert_eq!(exchanges, vec!["a.example".to_string(), "b.example".to_string()]);
    assert_eq!(out.concat(), "refer: x\nwhois:        b.example\nmore from a\nrecord from b\n");
}

#[test]
fn chain_back_to_first_host_is_a_loop() {
    let mut r = Resolver::new("a.example".to_string());
    feed(&mut r, &["whois: b.example\n"], &mut Vec::new());
    assert!(matches!(r.finish_hop(), Ok(Step::Next(_))));
    assert_eq!(r.current_host(), Some("b.example"));
    feed(&mut r, &["Whois Server: A.EXAMPLE\n"], &mut Vec::new());
    match r.finish_hop() {
        Err(e) => {
            assert_eq!(e.host, "a.example");
            assert_eq!(e.chain, vec!["a.example".to_string(), "b.example".to_string()]);
            assert_eq!(
                e.message(),
                "Error: Detected whois referral loop between hosts:\na.example\na.example\nb.example"
            );
        }
        other => panic!("unexpected {:?}", other),
    }
    assert_eq!(r.current_host(), None);
}

#[test]
fn self_referral_ends_without_second_hop() {
    let mut r = Resolver::new("whois.example.net".to_string());
    feed(&mut r, &["Whois Server: WHOIS.example.net\n", "rest\n"], &mut Vec::new());
    assert!(matches!(r.finish_hop(), Ok(Step::Done)));
    assert_eq!(r.current_host(), None);
}

#[test]
fn only_first_referral_line_counts() {
    let mut r = Resolver::new("a.example".to_string());
    feed(&mut r, &["whois: b.example\n", "whois: c.example\n"], &mut Vec::new());
    match r.finish_hop() {
        Ok(Step::Next(h)) => assert_eq!(h, "b.example"),
        other => panic!("unexpected {:?}", other),
    }
}

#[test]
fn empty_referral_ends_the_resolution() {
    let mut r = Resolver::new("a.example".to_string());
    feed(&mut r, &["whois:\n"], &mut Vec::new());
    assert!(matches!(r.finish_hop(), Ok(Step::Done)));
    assert_eq!(r.current_host(), None);
}

#[test]
fn empty_start_host_queries_nothing() {
    let r = Resolver::new(String::new());
    assert_eq!(r.current_host(), None);
}

#[test]
fn three_hop_loop_reports_whole_chain() {
    let mut r = Resolver::new("a".to_string());
    feed(&mut r, &["whois: b\n"], &mut Vec::new());
    assert!(matches!(r.finish_hop(), Ok(Step::Next(_))));
    feed(&mut r, &["whois: c\n"], &mut Vec::new());
    assert!(matches!(r.finish_hop(), Ok(Step::Next(_))));
    feed(&mut r, &["whois: b\n"], &mut Vec::new());
    match r.finish_hop() {
        Err(e) => {
            assert_eq!(e.host, "b");
            assert_eq!(e.chain, vec!["a".to_string(), "b".to_string(), "c".to_string()]);
        }
        other => panic!("unexpected {:?}", other),
    }
}
