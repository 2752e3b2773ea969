use lighter_bot::binary64::B64;
use lighter_bot::json::Json;
use lighter_bot::lighter::account::{
    account_info_of, account_looks_empty, checked_account_info, empty_account_info, parse_account_info,
};
use lighter_bot::lighter::error::LighterError;
use lighter_bot::lighter::types::{AccountInfo, Side};

fn f(x: B64) -> f64 {
    f64::from_bits(x.to_bits())
}

fn parse(text: &str) -> Result<AccountInfo, LighterError> {
    let payload: serde_json::Value = serde_json::from_str(text).expect("a document");
    parse_account_info(&payload)
}

#[test]
fn parses_official_rh_accounts_array_with_string_and_numeric_fields() {
    let info = parse(
        r#"{
            "code": 200,
            "total": 1,
            "accounts": [{
                "code": 0,
                "index": 42,
                "account_index": 42,
                "collateral": "1295.50",
                "available_balance": 1200,
                "assets": [{"symbol": "USDG", "asset_id": 3, "balance": "0"}],
                "positions": [{
                    "market_id": 1,
                    "symbol": "BTC",
                    "sign": "1",
                    "position": "0.000866",
                    "avg_entry_price": 69253.9,
                    "unrealized_pnl": "2.5"
                }]
            }]
        }"#,
    )
    .expect("valid RH account");
    assert!((f(info.total_equity) - 1298.0).abs() < 1e-9);
    assert_eq!(info.balances[0].asset, "USDG");
    assert!((f(info.balances[0].free) - 1200.0).abs() < 1e-9);
    assert_eq!(info.positions.len(), 1);
    assert_eq!(info.positions[0].symbol, "BTC");
    assert_eq!(info.positions[0].side, Side::Buy);
    assert!((f(info.positions[0].size) - 0.000866).abs() < 1e-12);
}

#[test]
fn parses_wrapped_and_singular_account_objects() {
    let info = parse(
        r#"{
            "data": {
                "detailed_accounts": [{
                    "collateral": 10.0,
                    "available_balance": "10",
                    "positions": []
                }]
            }
        }"#,
    )
    .expect("wrapped account");
    assert!((f(info.total_equity) - 10.0).abs() < 1e-12);

    let info = parse(r#"{ "account": { "collateral": "5", "positions": [] } }"#).expect("singular account");
    assert!((f(info.total_equity) - 5.0).abs() < 1e-12);
}

#[test]
fn empty_success_list_is_empty_account_not_an_error() {
    let info = parse(r#"{ "code": 200, "total": 0, "accounts": [] }"#).expect("empty list");
    assert!(account_looks_empty(&info));
}

#[test]
fn api_error_body_surfaces_exchange_message_instead_of_generic_missing() {
    let err = parse(r#"{ "code": 29404, "message": "not found" }"#).expect_err("error body");
    match err {
        LighterError::ApiError { code, message } => {
            assert_eq!(code, 29404);
            assert_eq!(message, "not found");
            assert!(!message.contains("No account found in response"));
        }
    }
}

#[test]
fn errors_without_a_message_show_the_response() {
    let LighterError::ApiError { code, message } = parse(r#"{"message":"  ","x":1}"#).unwrap_err();
    assert_eq!(code, -1);
    assert_eq!(message, r#"No account found in response: {"message":"  ","x":1}"#);

    // The response is shown without white space and with its keys in order.
    let LighterError::ApiError { message, .. } = parse(r#"{ "x" : [1, 2.50],  "a" : null }"#).unwrap_err();
    assert_eq!(message, r#"No account found in response: {"a":null,"x":[1,2.5]}"#);

    let long = format!("{{\"x\":\"{}\"}}", "y".repeat(300));
    let LighterError::ApiError { message, .. } = parse(&long).unwrap_err();
    assert_eq!(message, format!("No account found in response: {}…", &long[..200]));
    // A code is cut to 32 bits and read from texts and fractions.
    for (text, expected) in [
        (r#"{"code":"-7","message":"m"}"#, -7),
        (r#"{"code":12.9,"message":"m"}"#, 12),
        (r#"{"code":4294967297,"message":"m"}"#, 1),
        (r#"{"code":18446744073709551615,"message":"m"}"#, -1),
        (r#"{"code":null,"message":"m"}"#, -1),
    ] {
        let LighterError::ApiError { code, .. } = parse(text).unwrap_err();
        assert_eq!(code, expected, "{text}");
    }
}

#[test]
fn positions_are_signed_named_and_filtered() {
    let info = parse(
        r#"{"payload":{"accounts":{"a":1,"b":{"index":0,"collateral":1,"positions":[
            {"size":2,"sign":-1,"market_index":7,"entry_price":"3"},
            {"size":"0.0000000000001","market_id":1},
            {"position":1.5,"market_id":0},
            {"position":-4,"market_id":1,"unrealized_pnl":0.25},
            {"market_id":1}
        ],"assets":[{"symbol":"ETH"},{"symbol":"USDC"},{"symbol":"USDG"}]}}}}"#,
    )
    .unwrap();
    let names: Vec<&str> = info.positions.iter().map(|p| p.symbol.as_str()).collect();
    assert_eq!(names, vec!["MARKET_7", "ETH", "BTC"]);
    assert_eq!(info.positions[0].side, Side::Sell);
    assert_eq!(f(info.positions[0].size), 2.0);
    assert_eq!(f(info.positions[0].entry_price), 3.0);
    assert_eq!(info.positions[2].side, Side::Sell);
    assert_eq!(info.balances[0].asset, "USDC");
    assert_eq!(f(info.total_equity), 1.25);
    assert!(!account_looks_empty(&info));
    assert!(account_looks_empty(&empty_account_info()));
}

#[test]
fn payloads_are_never_cut_inside_a_character() {
    let text = format!("{{\"x\":\"{}\"}}", "é".repeat(120));
    let payload: serde_json::Value = serde_json::from_str(&text).unwrap();
    assert!(payload.to_string().is_char_boundary(200));
    assert!(checked_account_info(&payload).unwrap().is_err());

    let text = format!("{{\"x\":\"a{}\"}}", "é".repeat(120));
    let payload: serde_json::Value = serde_json::from_str(&text).unwrap();
    assert!(!payload.to_string().is_char_boundary(200));
    assert!(checked_account_info(&payload).is_none());
    // Where the exchange gave a message nothing is cut.
    let tree = Json::parse(r#"{"code":5,"message":"m"}"#).unwrap();
    let outcome = account_info_of(&tree, &text).unwrap();
    assert!(matches!(outcome, Err(LighterError::ApiError { code: 5, message }) if message == "m"));
}
