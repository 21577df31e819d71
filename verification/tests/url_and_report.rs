use dyndns::request::build_url;
use dyndns::response::report_line;
use dyndns::response::CycleOutcome;
use dyndns::response::ResponseEntry;
use dyndns::text::decimal_string;

#[test]
fn build_url_round_trip() {
    let url = build_url("h", "d.com", "p");
    assert_eq!(
        url,
        "https://dynamicdns.park-your-domain.com/update?host=h&domain=d.com&password=p"
    );
}

#[test]
fn build_url_encodes_values() {
    let url = build_url("my host", "ex ample.com", "p&w=100%");
    assert_eq!(
        url,
        "https://dynamicdns.park-your-domain.com/update\
         ?host=my+host&domain=ex+ample.com&password=p%26w%3D100%25"
    );
}

#[test]
fn build_url_matches_the_url_crate() {
    let host = "b\u{fc}ro m\u{fc}nchen";
    let domain = "d\u{e4}ta.com";
    let password = "a/b+c d*e_f-g.h";
    let mut reference = url::Url::parse("https://dynamicdns.park-your-domain.com/update").unwrap();
    reference
        .query_pairs_mut()
        .append_pair("host", host)
        .append_pair("domain", domain)
        .append_pair("password", password);
    assert_eq!(build_url(host, domain, password), reference.to_string());
}

#[test]
fn report_line_success() {
    let outcome = CycleOutcome::Success {
        entries: vec![
            ResponseEntry { description: "OK".to_string(), number: "0".to_string() },
            ResponseEntry { description: "Updated".to_string(), number: "1".to_string() },
        ],
    };
    assert_eq!(report_line(&outcome), "responses: [0] OK, [1] Updated");
}

#[test]
fn report_line_success_empty() {
    let outcome = CycleOutcome::Success { entries: vec![] };
    assert_eq!(report_line(&outcome), "responses: ");
}

#[test]
fn report_line_provider_error() {
    let outcome = CycleOutcome::ProviderError {
        errors: vec!["Invalid Password".to_string(), "Domain not active".to_string()],
        entries: vec![ResponseEntry { description: "OK".to_string(), number: "0".to_string() }],
    };
    assert_eq!(
        report_line(&outcome),
        "errors: Invalid Password, Domain not active, responses: [0] OK"
    );
}

#[test]
fn report_line_transport_error() {
    let outcome = CycleOutcome::TransportError { message: "non-ok response, got 500".to_string() };
    assert_eq!(report_line(&outcome), "non-ok response, got 500");
}

#[test]
fn decimal_string_spells_numbers() {
    assert_eq!(decimal_string(0), "0");
    assert_eq!(decimal_string(7), "7");
    assert_eq!(decimal_string(200), "200");
    assert_eq!(decimal_string(65535), "65535");
}
