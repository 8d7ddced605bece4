use mcp_core::json::{Json, JsonField};
use mcp_core::jtext::{to_text, parse_text};
use mcp_core::num::{u64_to_dec, parse_u64_dec, i64_to_lexeme, parse_i64_lexeme};

fn s(text: &str) -> String {
    text.to_string()
}

fn round_trip(v: &Json) -> Json {
    let text = to_text(v);
    parse_text(&text).expect("canonical text must parse")
}

#[test]
fn serializes_scalars() {
    assert_eq!(to_text(&Json::Null), "null");
    assert_eq!(to_text(&Json::Bool(true)), "true");
    assert_eq!(to_text(&Json::Bool(false)), "false");
    assert_eq!(to_text(&Json::Num(s("-32700"))), "-32700");
    assert_eq!(to_text(&Json::Str(s("hi"))), "\"hi\"");
}

#[test]
fn serializes_escapes() {
    assert_eq!(to_text(&Json::Str(s("a\"b"))), "\"a\\\"b\"");
    assert_eq!(to_text(&Json::Str(s("a\\b"))), "\"a\\\\b\"");
    assert_eq!(to_text(&Json::Str(s("a\nb"))), "\"a\\nb\"");
    assert_eq!(to_text(&Json::Str(s("a\tb"))), "\"a\\tb\"");
    assert_eq!(to_text(&Json::Str(s("a\u{1}b"))), "\"a\\u0001b\"");
    assert_eq!(to_text(&Json::Str(s("a\u{1f}b"))), "\"a\\u001fb\"");
}

#[test]
fn serializes_structures() {
    let arr = Json::Arr(vec![Json::Null, Json::Bool(true), Json::Num(s("1"))]);
    assert_eq!(to_text(&arr), "[null,true,1]");
    let obj = Json::Obj(vec![
        JsonField { key: s("a"), value: Json::Num(s("1")) },
        JsonField { key: s("b"), value: Json::Arr(vec![]) },
    ]);
    assert_eq!(to_text(&obj), "{\"a\":1,\"b\":[]}");
    assert_eq!(to_text(&Json::Obj(vec![])), "{}");
}

#[test]
fn parse_inverts_serialize_on_nested_value() {
    let v = Json::Obj(vec![
        JsonField {
            key: s("tools"),
            value: Json::Arr(vec![
                Json::Obj(vec![
                    JsonField { key: s("name"), value: Json::Str(s("echo \"x\"\n")) },
                    JsonField { key: s("count"), value: Json::Num(s("12.5e-3")) },
                ]),
                Json::Null,
            ]),
        },
        JsonField { key: s("ok"), value: Json::Bool(false) },
    ]);
    let text = to_text(&v);
    let back = round_trip(&v);
    assert_eq!(to_text(&back), text);
}

#[test]
fn parse_accepts_unicode_content() {
    let v = Json::Str(s("grüße 你好"));
    let back = round_trip(&v);
    assert_eq!(to_text(&back), to_text(&v));
}

#[test]
fn parse_rejects_malformed_text() {
    assert!(parse_text("").is_none());
    assert!(parse_text("nul").is_none());
    assert!(parse_text("truex").is_none());
    assert!(parse_text("{").is_none());
    assert!(parse_text("[1,]").is_none());
    assert!(parse_text("\"unterminated").is_none());
    assert!(parse_text("01").is_none());
    assert!(parse_text("1.").is_none());
    assert!(parse_text("--1").is_none());
    assert!(parse_text("{\"a\" : 1}").is_none());
}

#[test]
fn decimal_codec_round_trips() {
    assert_eq!(u64_to_dec(0), "0");
    assert_eq!(u64_to_dec(1), "1");
    assert_eq!(u64_to_dec(18446744073709551615), "18446744073709551615");
    let chars: Vec<char> = "42".chars().collect();
    assert_eq!(parse_u64_dec(&chars), Some(42));
    let leading: Vec<char> = "042".chars().collect();
    assert_eq!(parse_u64_dec(&leading), None);
    let empty: Vec<char> = Vec::new();
    assert_eq!(parse_u64_dec(&empty), None);
    let big: Vec<char> = "18446744073709551616".chars().collect();
    assert_eq!(parse_u64_dec(&big), None);
}

#[test]
fn signed_lexeme_codec_round_trips() {
    assert_eq!(i64_to_lexeme(-32700), "-32700");
    assert_eq!(i64_to_lexeme(0), "0");
    assert_eq!(i64_to_lexeme(i64::MIN), "-9223372036854775808");
    let chars: Vec<char> = "-32700".chars().collect();
    assert_eq!(parse_i64_lexeme(&chars), Some(-32700));
    let minzero: Vec<char> = "-0".chars().collect();
    assert_eq!(parse_i64_lexeme(&minzero), None);
    let min: Vec<char> = "-9223372036854775808".chars().collect();
    assert_eq!(parse_i64_lexeme(&min), Some(i64::MIN));
    let under: Vec<char> = "-9223372036854775809".chars().collect();
    assert_eq!(parse_i64_lexeme(&under), None);
}
