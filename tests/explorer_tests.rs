use wallet_classifier::decimal::parse_u128;
use wallet_classifier::explorer::{
    code_in, judge, request_url, transactions_in, ExplorerError, RequestLoop, Step, Verdict,
};
use wallet_classifier::json::{entry_text, list_len, member_text, parse_reply};
use wallet_classifier::text::{contains, lowercase, same_text};
use wallet_classifier::transaction::transaction_from_fields;

fn some(s: &str) -> Option<String> {
    Some(s.to_owned())
}

#[test]
fn decimal_reads_digits() {
    assert_eq!(parse_u128("0"), Some(0));
    assert_eq!(parse_u128("1700000000"), Some(1_700_000_000));
    assert_eq!(parse_u128("340282366920938463463374607431768211455"), Some(u128::MAX));
}

#[test]
fn decimal_rejects_bad_text() {
    assert_eq!(parse_u128(""), None);
    assert_eq!(parse_u128("12a"), None);
    assert_eq!(parse_u128("-1"), None);
    assert_eq!(parse_u128("340282366920938463463374607431768211456"), None);
}

#[test]
fn text_helpers() {
    assert!(contains("Max rate limit reached", "rate limit"));
    assert!(!contains("rate", "rate limit"));
    assert!(contains("abc", ""));
    assert!(same_text("0x0", "0x0"));
    assert!(!same_text("0x0", "0x"));
    assert_eq!(lowercase("0xAbCDef"), "0xabcdef");
}

#[test]
fn transaction_fields_are_read() {
    let t = transaction_from_fields(some("0xh"), some("1000"), some("0xA"), some("0xB"), some("5"))
        .unwrap();
    assert_eq!(t.timestamp, 1000);
    assert_eq!(t.value, 5);
    assert_eq!(t.from, "0xA");
    assert_eq!(t.to, "0xB");
    let unnamed = transaction_from_fields(None, some("1"), some("a"), some("b"), some("1")).unwrap();
    assert_eq!(unnamed.hash, None);
    assert!(transaction_from_fields(some("h"), some("1"), None, some("b"), some("1")).is_none());
    assert!(transaction_from_fields(some("h"), some("18446744073709551616"), some("a"), some("b"), some("1")).is_none());
    assert!(transaction_from_fields(some("h"), some("1"), some("a"), some("b"), some("1.5")).is_none());
}

#[test]
fn judge_success_status() {
    assert!(matches!(judge(some("1"), some("OK"), some("[]"), "u", "p"), Verdict::Accept));
    assert!(matches!(judge(None, None, None, "u", "p"), Verdict::Accept));
}

#[test]
fn judge_rate_limit() {
    let v = judge(some("0"), some("NOTOK"), some("Max rate limit reached"), "u", "p");
    assert!(matches!(v, Verdict::Retry));
    let v = judge(some("0"), some("Please try again later"), None, "u", "p");
    assert!(matches!(v, Verdict::Retry));
}

#[test]
fn judge_bad_key() {
    let v = judge(some("0"), some("NOTOK"), some("Invalid API Key"), "u", "p");
    assert!(matches!(v, Verdict::Fail(ExplorerError::Auth)));
}

#[test]
fn judge_no_transactions_is_success() {
    let v = judge(some("0"), some("No transactions found"), None, "u", "p");
    assert!(matches!(v, Verdict::Accept));
}

#[test]
fn judge_other_error() {
    match judge(some("0"), None, some("boom"), "the-url", "the-body") {
        Verdict::Fail(ExplorerError::Api { message, url, payload }) => {
            assert_eq!(message, "unknown error");
            assert_eq!(url, "the-url");
            assert_eq!(payload, "the-body");
        }
        _ => panic!("expected an explorer error"),
    }
}

#[test]
fn rate_limited_twice_then_success() {
    let limited = r#"{"status":"0","message":"NOTOK","result":"Max rate limit reached"}"#;
    let ok = r#"{"status":"1","message":"OK","result":"0x"}"#;
    let mut req = RequestLoop::new();
    assert!(matches!(req.on_reply(limited, "u"), Step::Sleep));
    assert!(matches!(req.on_reply(limited, "u"), Step::Sleep));
    match req.on_reply(ok, "u") {
        Step::Done(Ok(v)) => assert_eq!(code_in(&v).ok(), Some("0x".to_owned())),
        _ => panic!("expected the successful reply"),
    }
    assert_eq!(req.sleeps, 2);
}

#[test]
fn malformed_reply_is_parse_error() {
    let mut req = RequestLoop::new();
    assert!(matches!(req.on_reply("{not json", "u"), Step::Done(Err(ExplorerError::Parse))));
    assert_eq!(req.sleeps, 0);
}

#[test]
fn transactions_are_read_in_order() {
    let body = r#"{"status":"1","message":"OK","result":[
        {"hash":"0x2","timeStamp":"2000","from":"0xA","to":"0xB","value":"7"},
        {"hash":"0x1","timeStamp":"1000","from":"0xB","to":"0xA","value":"3"}]}"#;
    let v = parse_reply(body).unwrap();
    let txs = transactions_in(&v).ok().unwrap();
    assert_eq!(txs.len(), 2);
    assert_eq!(txs[0].timestamp, 2000);
    assert_eq!(txs[0].value, 7);
    assert_eq!(txs[1].hash, Some("0x1".to_owned()));
    assert_eq!(txs[1].from, "0xB");
}

#[test]
fn reply_members_are_read() {
    let v = parse_reply(r#"{"status":"0","result":[{"a":"x"},{"a":1}]}"#).unwrap();
    assert_eq!(member_text(&v, "status"), Some("0".to_owned()));
    assert_eq!(member_text(&v, "message"), None);
    assert_eq!(member_text(&v, "result"), None);
    assert_eq!(list_len(&v, "result"), Some(2));
    assert_eq!(list_len(&v, "status"), None);
    assert_eq!(entry_text(&v, "result", 0, "a"), Some("x".to_owned()));
    assert_eq!(entry_text(&v, "result", 1, "a"), None);
    assert_eq!(entry_text(&v, "result", 5, "a"), None);
    assert!(parse_reply("[1,").is_none());
}

#[test]
fn no_transactions_reply_gives_empty_list() {
    let body = r#"{"status":"0","message":"No transactions found","result":[]}"#;
    let mut req = RequestLoop::new();
    match req.on_reply(body, "u") {
        Step::Done(Ok(v)) => assert_eq!(transactions_in(&v).ok().map(|t| t.len()), Some(0)),
        _ => panic!("expected an empty result"),
    }
}

#[test]
fn missing_result_is_not_found() {
    let v = parse_reply(r#"{"status":"1","message":"OK"}"#).unwrap();
    assert!(matches!(transactions_in(&v), Err(ExplorerError::NotFound)));
    assert!(matches!(code_in(&v), Err(ExplorerError::NotFound)));
}

#[test]
fn malformed_transaction_is_parse_error() {
    let v = parse_reply(r#"{"result":[{"hash":"h","timeStamp":"x","from":"a","to":"b","value":"1"}]}"#)
        .unwrap();
    assert!(matches!(transactions_in(&v), Err(ExplorerError::Parse)));
}

#[test]
fn request_url_is_exact() {
    assert_eq!(
        request_url("account", "txlist", "0xabc", "KEY"),
        "https://api.etherscan.io/v2/api?chainid=1&module=account&action=txlist&address=0xabc&sort=desc&apikey=KEY"
    );
}
