use bgp_lookup::fetch::{interpret, FetchError, Response};
use bgp_lookup::page::Operation;
use bgp_lookup::report::{Diagnostic, Output};
use bgp_lookup::traversal::Traversal;

fn subnet_page(hosts: &[&str]) -> String {
    let mut page = String::from("<html><div id=\"dns\">");
    for host in hosts {
        page.push_str(&format!("<a href=\"/dns/{}\" title=\"{}\">{}</a>, ", host, host, host));
    }
    page.push_str("</div></html>");
    page
}

fn asn_page(subnets: &[&str]) -> String {
    let mut page = String::from("<html><table id=\"prefixes\">");
    for subnet in subnets {
        page.push_str(&format!("<tr><td><a href=\"/net/{}\">{}</a></td></tr>\n", subnet, subnet));
    }
    page.push_str("</table></html>");
    page
}

fn record(text: &str) -> Output {
    Output::Record(text.to_string())
}

fn failure(operation: Operation, identifier: &str, error: FetchError) -> Output {
    Output::Failure(Diagnostic { operation, identifier: identifier.to_string(), error })
}

#[test]
fn subnet_lookup_emits_the_hostnames_in_page_order() {
    let mut traversal = Traversal::single(Operation::Subnet, "192.0.2.0/24".to_string());
    assert!(!traversal.is_done());
    assert_eq!(traversal.next_request(), Some("https://bgp.he.net/net/192.0.2.0/24#_dns".to_string()));
    let outputs = traversal.deliver(Ok(subnet_page(&["mail.example.com", "www.example.com", "mail.example.com"])));
    assert_eq!(
        outputs,
        vec![record("mail.example.com"), record("www.example.com"), record("mail.example.com")]
    );
    assert!(traversal.is_done());
    assert_eq!(traversal.next_request(), None);
}

#[test]
fn subnet_lookup_of_a_page_without_hostnames_emits_nothing() {
    let mut traversal = Traversal::single(Operation::Subnet, "192.0.2.0/24".to_string());
    assert_eq!(traversal.deliver(Ok("<html></html>".to_string())), Vec::<Output>::new());
    assert!(traversal.is_done());
}

#[test]
fn subnet_lookup_that_meets_404_emits_one_diagnostic() {
    let mut traversal = Traversal::single(Operation::Subnet, "192.0.2.0/24".to_string());
    let outcome = interpret(Response::Answered { status: 404, body: subnet_page(&["a.example"]) });
    assert_eq!(outcome, Err(FetchError::Status(404)));
    let outputs = traversal.deliver(outcome);
    assert_eq!(outputs, vec![failure(Operation::Subnet, "192.0.2.0/24", FetchError::Status(404))]);
    match &outputs[0] {
        Output::Failure(diagnostic) => assert!(diagnostic.message().contains("192.0.2.0/24")),
        Output::Record(_) => panic!("a record for a page that was not had"),
    }
    assert!(traversal.is_done());
    assert_eq!(traversal.next_request(), None);
}

#[test]
fn asn_lookup_that_fails_emits_one_diagnostic() {
    let mut traversal = Traversal::single(Operation::Asn, "AS64500".to_string());
    assert_eq!(traversal.next_request(), Some("https://bgp.he.net/AS64500#_prefixes".to_string()));
    let outputs = traversal.deliver(Err(FetchError::Transport));
    assert_eq!(outputs, vec![failure(Operation::Asn, "AS64500", FetchError::Transport)]);
    assert!(traversal.is_done());
}

#[test]
fn asn_lookup_visits_each_subnet_in_page_order() {
    let mut traversal = Traversal::single(Operation::Asn, "AS64500".to_string());
    let outputs = traversal.deliver(Ok(asn_page(&["192.0.2.0/24", "198.51.100.0/24"])));
    assert_eq!(outputs, Vec::<Output>::new());
    assert_eq!(traversal.next_request(), Some("https://bgp.he.net/net/192.0.2.0/24#_dns".to_string()));
    assert_eq!(traversal.deliver(Ok(subnet_page(&["a.example", "b.example"]))), vec![record("a.example"), record("b.example")]);
    assert_eq!(traversal.next_request(), Some("https://bgp.he.net/net/198.51.100.0/24#_dns".to_string()));
    assert_eq!(traversal.deliver(Ok(subnet_page(&["c.example"]))), vec![record("c.example")]);
    assert_eq!(traversal.next_request(), None);
    assert!(traversal.is_done());
}

#[test]
fn asn_lookup_of_a_page_without_subnets_is_done() {
    let mut traversal = Traversal::single(Operation::Asn, "AS64500".to_string());
    assert_eq!(traversal.deliver(Ok("<html></html>".to_string())), Vec::<Output>::new());
    assert!(traversal.is_done());
    assert_eq!(traversal.next_request(), None);
}

#[test]
fn asn_lookup_goes_on_past_a_failed_subnet() {
    let mut traversal = Traversal::single(Operation::Asn, "AS64500".to_string());
    let mut requests: Vec<String> = Vec::new();
    let mut outputs: Vec<Output> = Vec::new();
    let mut outcomes = vec![
        Ok(asn_page(&["192.0.2.0/24", "198.51.100.0/24", "203.0.113.0/24"])),
        Ok(subnet_page(&["a.example"])),
        Err(FetchError::Transport),
        Ok(subnet_page(&["c.example", "d.example"])),
    ]
    .into_iter();
    while let Some(request) = traversal.next_request() {
        requests.push(request);
        outputs.extend(traversal.deliver(outcomes.next().unwrap()));
    }
    assert_eq!(
        requests,
        vec![
            "https://bgp.he.net/AS64500#_prefixes".to_string(),
            "https://bgp.he.net/net/192.0.2.0/24#_dns".to_string(),
            "https://bgp.he.net/net/198.51.100.0/24#_dns".to_string(),
            "https://bgp.he.net/net/203.0.113.0/24#_dns".to_string(),
        ]
    );
    assert_eq!(
        outputs,
        vec![
            record("a.example"),
            failure(Operation::Subnet, "198.51.100.0/24", FetchError::Transport),
            record("c.example"),
            record("d.example"),
        ]
    );
    let failures = outputs.iter().filter(|output| matches!(output, Output::Failure(_))).count();
    assert_eq!(failures, 1);
    assert!(outcomes.next().is_none());
}

#[test]
fn asn_lookup_reports_each_failed_subnet_once() {
    let mut traversal = Traversal::single(Operation::Asn, "AS64500".to_string());
    let replay = traversal.replay(&vec![
        Ok(asn_page(&["10.0.0.0/8", "10.1.0.0/16", "10.2.0.0/16"])),
        Err(FetchError::Status(404)),
        Err(FetchError::Transport),
        Err(FetchError::Status(500)),
    ]);
    assert_eq!(
        replay.outputs,
        vec![
            failure(Operation::Subnet, "10.0.0.0/8", FetchError::Status(404)),
            failure(Operation::Subnet, "10.1.0.0/16", FetchError::Transport),
            failure(Operation::Subnet, "10.2.0.0/16", FetchError::Status(500)),
        ]
    );
    assert_eq!(replay.requests.len(), 4);
    assert!(traversal.is_done());
}

#[test]
fn batch_goes_on_past_a_failed_lookup() {
    let identifiers = vec!["10.0.0.0/8".to_string(), "10.1.0.0/16".to_string(), "10.2.0.0/16".to_string()];
    let mut traversal = Traversal::batch(Operation::Subnet, identifiers);
    let replay = traversal.replay(&vec![
        Ok(subnet_page(&["a.example"])),
        Err(FetchError::Transport),
        Ok(subnet_page(&["c.example"])),
    ]);
    assert_eq!(
        replay.requests,
        vec![
            "https://bgp.he.net/net/10.0.0.0/8#_dns".to_string(),
            "https://bgp.he.net/net/10.1.0.0/16#_dns".to_string(),
            "https://bgp.he.net/net/10.2.0.0/16#_dns".to_string(),
        ]
    );
    assert_eq!(
        replay.outputs,
        vec![
            record("a.example"),
            failure(Operation::Subnet, "10.1.0.0/16", FetchError::Transport),
            record("c.example"),
        ]
    );
    assert!(traversal.is_done());
}

#[test]
fn batch_yields_what_each_lookup_yields_alone() {
    let identifiers = ["10.0.0.0/8", "10.1.0.0/16", "10.2.0.0/16"];
    let outcomes = vec![
        Ok(subnet_page(&["a.example", "b.example"])),
        Err(FetchError::Status(503)),
        Ok(subnet_page(&["c.example"])),
    ];
    let mut together = Traversal::batch(Operation::Subnet, identifiers.iter().map(|s| s.to_string()).collect());
    let all = together.replay(&outcomes);
    let mut each: Vec<Output> = Vec::new();
    for i in 0..identifiers.len() {
        let mut alone = Traversal::single(Operation::Subnet, identifiers[i].to_string());
        each.extend(alone.replay(&vec![outcomes[i].clone()]).outputs);
    }
    assert_eq!(all.outputs, each);
}

#[test]
fn batch_of_asns_finishes_each_before_the_next() {
    let mut traversal = Traversal::batch(Operation::Asn, vec!["AS1".to_string(), "AS2".to_string(), "AS3".to_string()]);
    let replay = traversal.replay(&vec![
        Ok(asn_page(&["10.0.0.0/8", "10.1.0.0/16"])),
        Ok(subnet_page(&["a.example"])),
        Err(FetchError::Transport),
        Err(FetchError::Status(404)),
        Ok(asn_page(&["10.3.0.0/16"])),
        Ok(subnet_page(&["d.example"])),
    ]);
    assert_eq!(
        replay.requests,
        vec![
            "https://bgp.he.net/AS1#_prefixes".to_string(),
            "https://bgp.he.net/net/10.0.0.0/8#_dns".to_string(),
            "https://bgp.he.net/net/10.1.0.0/16#_dns".to_string(),
            "https://bgp.he.net/AS2#_prefixes".to_string(),
            "https://bgp.he.net/AS3#_prefixes".to_string(),
            "https://bgp.he.net/net/10.3.0.0/16#_dns".to_string(),
        ]
    );
    assert_eq!(
        replay.outputs,
        vec![
            record("a.example"),
            failure(Operation::Subnet, "10.1.0.0/16", FetchError::Transport),
            failure(Operation::Asn, "AS2", FetchError::Status(404)),
            record("d.example"),
        ]
    );
    assert!(traversal.is_done());
}

#[test]
fn empty_batch_is_done() {
    let mut traversal = Traversal::batch(Operation::Subnet, Vec::new());
    assert!(traversal.is_done());
    assert_eq!(traversal.next_request(), None);
    assert_eq!(traversal.deliver(Ok(subnet_page(&["a.example"]))), Vec::<Output>::new());
    assert!(traversal.is_done());
}

#[test]
fn outcome_delivered_to_a_finished_traversal_is_ignored() {
    let mut traversal = Traversal::single(Operation::Subnet, "10.0.0.0/8".to_string());
    assert_eq!(traversal.deliver(Err(FetchError::Transport)).len(), 1);
    assert_eq!(traversal.deliver(Err(FetchError::Transport)), Vec::<Output>::new());
    assert_eq!(traversal.deliver(Ok(subnet_page(&["a.example"]))), Vec::<Output>::new());
    assert!(traversal.is_done());
}

#[test]
fn replay_stops_when_the_outcomes_are_used_up() {
    let mut traversal = Traversal::batch(Operation::Subnet, vec!["10.0.0.0/8".to_string(), "10.1.0.0/16".to_string()]);
    let replay = traversal.replay(&vec![Ok(subnet_page(&["a.example"]))]);
    assert_eq!(replay.requests, vec!["https://bgp.he.net/net/10.0.0.0/8#_dns".to_string()]);
    assert_eq!(replay.outputs, vec![record("a.example")]);
    assert!(!traversal.is_done());
    assert_eq!(traversal.next_request(), Some("https://bgp.he.net/net/10.1.0.0/16#_dns".to_string()));
    let rest = traversal.replay(&vec![Err(FetchError::Transport), Ok(subnet_page(&["x.example"]))]);
    assert_eq!(rest.requests, vec!["https://bgp.he.net/net/10.1.0.0/16#_dns".to_string()]);
    assert_eq!(rest.outputs, vec![failure(Operation::Subnet, "10.1.0.0/16", FetchError::Transport)]);
    assert!(traversal.is_done());
}

#[test]
fn subnets_found_on_a_subnet_page_are_not_followed() {
    let mut traversal = Traversal::single(Operation::Subnet, "10.0.0.0/8".to_string());
    let page = format!("{}{}", asn_page(&["10.9.0.0/16"]), subnet_page(&["a.example"]));
    assert_eq!(traversal.deliver(Ok(page)), vec![record("a.example")]);
    assert!(traversal.is_done());
}

#[test]
fn hostnames_found_on_an_asn_page_are_not_emitted() {
    let mut traversal = Traversal::single(Operation::Asn, "AS1".to_string());
    let page = format!("{}{}", subnet_page(&["a.example"]), asn_page(&["10.9.0.0/16"]));
    assert_eq!(traversal.deliver(Ok(page)), Vec::<Output>::new());
    assert_eq!(traversal.next_request(), Some("https://bgp.he.net/net/10.9.0.0/16#_dns".to_string()));
}
