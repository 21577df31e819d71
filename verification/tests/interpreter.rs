use dyndns::response::interpret;
use dyndns::response::CycleOutcome;
use dyndns::response::ResponseEntry;

fn entry(description: &str, number: &str) -> ResponseEntry {
    ResponseEntry { description: description.to_string(), number: number.to_string() }
}

#[test]
fn success_scenario() {
    let body = "<interface-response><errors></errors><responses><response>\
                <Description>OK</Description><ResponseNumber>0</ResponseNumber>\
                </response></responses></interface-response>";
    let outcome = interpret(200, body);
    assert_eq!(outcome, CycleOutcome::Success { entries: vec![entry("OK", "0")] });
}

#[test]
fn success_keeps_document_order() {
    let body = "<interface-response><errors></errors><responses>\
                <response><Description>first</Description><ResponseNumber>1</ResponseNumber></response>\
                <response><Description>second</Description><ResponseNumber>2</ResponseNumber></response>\
                <response><Description>third</Description><ResponseNumber>3</ResponseNumber></response>\
                </responses></interface-response>";
    let outcome = interpret(200, body);
    assert_eq!(
        outcome,
        CycleOutcome::Success {
            entries: vec![entry("first", "1"), entry("second", "2"), entry("third", "3")],
        }
    );
}

#[test]
fn success_with_no_entries() {
    let body = "<interface-response><errors></errors><responses></responses></interface-response>";
    let outcome = interpret(200, body);
    assert_eq!(outcome, CycleOutcome::Success { entries: vec![] });
}

#[test]
fn whitespace_between_elements_is_no_entry() {
    let body = "<interface-response>\n  <errors>\n  </errors>\n  <responses>\n    <response>\n      \
                <Description>OK</Description>\n      <ResponseNumber>0</ResponseNumber>\n    \
                </response>\n  </responses>\n</interface-response>";
    let outcome = interpret(200, body);
    assert_eq!(outcome, CycleOutcome::Success { entries: vec![entry("OK", "0")] });
}

#[test]
fn nested_root_is_found() {
    let body = "<outer><interface-response><errors></errors><responses></responses>\
                </interface-response></outer>";
    let outcome = interpret(200, body);
    assert_eq!(outcome, CycleOutcome::Success { entries: vec![] });
}

#[test]
fn provider_error_scenario() {
    let body = "<interface-response><errors><error>Invalid Password</error></errors>\
                <responses></responses></interface-response>";
    let outcome = interpret(200, body);
    assert_eq!(
        outcome,
        CycleOutcome::ProviderError { errors: vec!["Invalid Password".to_string()], entries: vec![] }
    );
}

#[test]
fn provider_error_dominates_entries() {
    let body = "<interface-response><errors><error>Domain not active</error>\
                <error>Invalid Password</error></errors><responses><response>\
                <Description>OK</Description><ResponseNumber>0</ResponseNumber>\
                </response></responses></interface-response>";
    let outcome = interpret(200, body);
    assert_eq!(
        outcome,
        CycleOutcome::ProviderError {
            errors: vec!["Domain not active".to_string(), "Invalid Password".to_string()],
            entries: vec![entry("OK", "0")],
        }
    );
}

#[test]
fn missing_responses_scenario() {
    let body = "<interface-response><errors></errors></interface-response>";
    let outcome = interpret(200, body);
    assert_eq!(
        outcome,
        CycleOutcome::TransportError { message: "responses missing from response".to_string() }
    );
}

#[test]
fn transport_scenario() {
    let outcome = interpret(500, "<interface-response>this body is never read");
    match outcome {
        CycleOutcome::TransportError { message } => {
            assert!(message.contains("500"));
            assert_eq!(message, "non-ok response, got 500");
        },
        other => panic!("expected a transport failure, got {other:?}"),
    }
}

#[test]
fn every_non_ok_status_names_itself() {
    for status in [100u16, 201, 301, 404, 503, 65535] {
        let outcome = interpret(status, "");
        match outcome {
            CycleOutcome::TransportError { message } => {
                assert!(message.contains(&status.to_string()));
            },
            other => panic!("expected a transport failure, got {other:?}"),
        }
    }
}

#[test]
fn root_missing() {
    let outcome = interpret(200, "<other></other>");
    assert_eq!(outcome, CycleOutcome::TransportError { message: "root node missing".to_string() });
}

#[test]
fn errors_missing() {
    let outcome = interpret(200, "<interface-response></interface-response>");
    assert_eq!(
        outcome,
        CycleOutcome::TransportError { message: "errors missing from response".to_string() }
    );
}

#[test]
fn error_without_text_discards_all() {
    let body = "<interface-response><errors><error>kept</error><error></error></errors>\
                <responses></responses></interface-response>";
    let outcome = interpret(200, body);
    assert_eq!(
        outcome,
        CycleOutcome::TransportError { message: "text missing from error".to_string() }
    );
}

#[test]
fn entry_without_description_discards_all() {
    let body = "<interface-response><errors></errors><responses>\
                <response><Description>fine</Description><ResponseNumber>0</ResponseNumber></response>\
                <response><ResponseNumber>1</ResponseNumber></response>\
                </responses></interface-response>";
    let outcome = interpret(200, body);
    assert_eq!(
        outcome,
        CycleOutcome::TransportError { message: "response missing description elem".to_string() }
    );
}

#[test]
fn entry_without_response_number_discards_all() {
    let body = "<interface-response><errors></errors><responses>\
                <response><Description>fine</Description></response>\
                </responses></interface-response>";
    let outcome = interpret(200, body);
    assert_eq!(
        outcome,
        CycleOutcome::TransportError { message: "response missing description elem".to_string() }
    );
}

#[test]
fn entry_description_without_text() {
    let body = "<interface-response><errors></errors><responses>\
                <response><Description></Description><ResponseNumber>0</ResponseNumber></response>\
                </responses></interface-response>";
    let outcome = interpret(200, body);
    assert_eq!(
        outcome,
        CycleOutcome::TransportError {
            message: "response description elem missing text".to_string(),
        }
    );
}

#[test]
fn entry_response_number_without_text() {
    let body = "<interface-response><errors></errors><responses>\
                <response><Description>OK</Description><ResponseNumber></ResponseNumber></response>\
                </responses></interface-response>";
    let outcome = interpret(200, body);
    assert_eq!(
        outcome,
        CycleOutcome::TransportError {
            message: "response description elem missing text".to_string(),
        }
    );
}

#[test]
fn ill_formed_xml_is_transport() {
    let outcome = interpret(200, "<interface-response><errors>");
    match outcome {
        CycleOutcome::TransportError { message } => assert!(!message.is_empty()),
        other => panic!("expected a transport failure, got {other:?}"),
    }
}

#[test]
fn description_text_must_be_its_first_child() {
    let body = "<interface-response><errors></errors><responses>\
                <response><Description><sub></sub>late text</Description>\
                <ResponseNumber>0</ResponseNumber></response>\
                </responses></interface-response>";
    let outcome = interpret(200, body);
    assert_eq!(
        outcome,
        CycleOutcome::TransportError {
            message: "response description elem missing text".to_string(),
        }
    );
}

#[test]
fn only_direct_children_of_errors_are_read() {
    let body = "<interface-response><errors><wrap><error>deep</error></wrap></errors>\
                <responses></responses></interface-response>";
    let outcome = interpret(200, body);
    assert_eq!(
        outcome,
        CycleOutcome::TransportError { message: "text missing from error".to_string() }
    );
}
