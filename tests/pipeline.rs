use proof_viz::classify::{ClassifiedContent, HttpHeader, HttpResponse};
use proof_viz::key::TrustedKey;
use proof_viz::pipeline::{
    step, Attempt, Event, SessionClaim, SessionFailure, Stage, Transcript, VerifyError,
};
use proof_viz::segment::Segment;

fn claim() -> SessionClaim {
    SessionClaim { server_name: "example.com".to_string(), time: 1_700_000_000 }
}

fn verified_stage() -> Stage {
    let s = step(Stage::Start, Event::Parsed(Ok(())));
    step(s, Event::SessionChecked(Ok(claim())))
}

fn received() -> Transcript {
    Transcript {
        data: b"HTTP/1.1 200 OK\r\nContent-Type: application/json\r\n\r\n{\"a\":\"zzzz\"}".to_vec(),
        redacted: vec![57..61],
    }
}

fn sent() -> Transcript {
    Transcript { data: b"GET / HTTP/1.1\r\n\r\n".to_vec(), redacted: vec![] }
}

#[test]
fn end_to_end_one_middle_redaction() {
    let s = verified_stage();
    let s = step(s, Event::SubstringsChecked(Ok((sent(), received()))));
    let masked = match &s {
        Stage::SubstringsVerified(c) => c.masked_received.clone(),
        other => panic!("unexpected stage {:?}", other),
    };
    assert_eq!(
        masked,
        b"HTTP/1.1 200 OK\r\nContent-Type: application/json\r\n\r\n{\"a\":\"XXXX\"}".to_vec()
    );
    let parsed = Ok(HttpResponse {
        headers: vec![HttpHeader {
            name: b"Content-Type".to_vec(),
            value: b"application/json".to_vec(),
        }],
        body: Some(b"{\"a\":\"XXXX\"}".to_vec()),
    });
    let s = step(s, Event::ResponseParsed(parsed));
    match s {
        Stage::Rendered(r) => {
            assert_eq!(r.session.server_name(), "example.com");
            assert_eq!(r.session.time(), 1_700_000_000);
            assert_eq!(r.sent, vec![Segment::Disclosed(b"GET / HTTP/1.1\r\n\r\n".to_vec())]);
            assert_eq!(r.received.len(), 3);
            assert!(matches!(r.received[0], Segment::Disclosed(_)));
            assert_eq!(r.received[1], Segment::Redacted(4));
            assert_eq!(r.received[2], Segment::Disclosed(b"\"}".to_vec()));
            assert_eq!(
                r.received_content,
                ClassifiedContent::Structured("{\n  \"a\": \"XXXX\"\n}".to_string())
            );
        }
        other => panic!("unexpected stage {:?}", other),
    }
}

#[test]
fn wrong_key_is_signature_invalid_and_final() {
    let s = step(Stage::Start, Event::Parsed(Ok(())));
    let s = step(s, Event::SessionChecked(Err(SessionFailure::Signature("bad signature".to_string()))));
    let expected = Stage::SessionInvalid(VerifyError::SignatureInvalid("bad signature".to_string()));
    assert_eq!(s, expected);
    let s = step(s, Event::SubstringsChecked(Ok((sent(), received()))));
    assert_eq!(s, expected);
}

#[test]
fn untrusted_identity_is_identity_invalid() {
    let s = step(Stage::Start, Event::Parsed(Ok(())));
    let s = step(s, Event::SessionChecked(Err(SessionFailure::Identity("unknown issuer".to_string()))));
    assert_eq!(s, Stage::SessionInvalid(VerifyError::IdentityInvalid("unknown issuer".to_string())));
}

#[test]
fn valid_session_keeps_identity_and_time() {
    match verified_stage() {
        Stage::SessionVerified(v) => {
            assert_eq!(v.server_name(), "example.com");
            assert_eq!(v.time(), 1_700_000_000);
        }
        other => panic!("unexpected stage {:?}", other),
    }
}

#[test]
fn foreign_substrings_are_a_mismatch() {
    let s = step(verified_stage(), Event::SubstringsChecked(Err("root mismatch".to_string())));
    assert_eq!(s, Stage::SubstringsInvalid(VerifyError::SubstringMismatch("root mismatch".to_string())));
    let s = step(s, Event::ResponseParsed(Err("x".to_string())));
    assert!(matches!(s, Stage::SubstringsInvalid(_)));
}

#[test]
fn parse_failure_is_final() {
    let s = step(Stage::Start, Event::Parsed(Err("expected value".to_string())));
    assert_eq!(s, Stage::ParseFailed(VerifyError::Parse("expected value".to_string())));
    let s = step(s, Event::SessionChecked(Ok(claim())));
    assert_eq!(s, Stage::ParseFailed(VerifyError::Parse("expected value".to_string())));
}

#[test]
fn bad_ranges_are_an_internal_fault() {
    let bad = Transcript { data: b"abc".to_vec(), redacted: vec![1..5] };
    let s = step(verified_stage(), Event::SubstringsChecked(Ok((sent(), bad))));
    assert_eq!(s, Stage::SubstringsInvalid(VerifyError::InvalidRanges));
}

#[test]
fn events_out_of_order_are_ignored() {
    let s = step(Stage::Start, Event::SessionChecked(Ok(claim())));
    assert_eq!(s, Stage::Start);
    let s = step(Stage::Parsed, Event::ResponseParsed(Err("x".to_string())));
    assert_eq!(s, Stage::Parsed);
}

#[test]
fn attempt_keeps_its_key() {
    let key = TrustedKey { sec1: vec![4, 1, 2] };
    let a = Attempt::begin(key.clone());
    assert_eq!(a.stage(), &Stage::Start);
    let a = a.advance(Event::Parsed(Ok(())));
    assert_eq!(a.key(), &key);
    assert_eq!(a.stage(), &Stage::Parsed);
}
