use sciurus::config::{Config, JsonConfig};
use sciurus::document::Node;
use sciurus::onedrive::{
    authorize_url, code_request, field_count, field_text, parse_token_response, plan_access,
    refresh_request, Access, Token, CODE_KEY, REFRESH_TOKEN_KEY,
};
use sciurus::value::{Number, Value};

const AUTHORIZE: &str = "https://login.live.com/oauth20_authorize.srf?client_id=me&scope=onedrive.readwrite%20offline_access&response_type=code&redirect_uri=https%3A%2F%2Flogin.live.com%2Foauth20_desktop.srf";

#[test]
fn requests_are_spelled_out() {
    assert_eq!(
        "client_id=me&redirect_uri=https%3A%2F%2Flogin.live.com%2Foauth20_desktop.srf&grant_type=authorization_code&code=c0de",
        code_request("me", "c0de")
    );
    assert_eq!(
        "client_id=me&redirect_uri=https%3A%2F%2Flogin.live.com%2Foauth20_desktop.srf&refresh_token=r3fresh&grant_type=refresh_token",
        refresh_request("me", "r3fresh")
    );
    assert_eq!(AUTHORIZE, authorize_url("me"));
}

#[test]
fn number_as_u32() {
    let n = |positive, mantissa, exponent| Number::Finite { positive, mantissa, exponent };
    assert_eq!(Some(3600), n(true, 3600, 0).as_u32());
    assert_eq!(Some(0), n(true, 0, 0).as_u32());
    assert_eq!(Some(u32::MAX), n(true, 4294967295, 0).as_u32());
    assert_eq!(None, n(true, 4294967296, 0).as_u32());
    assert_eq!(None, n(false, 3600, 0).as_u32());
    assert_eq!(None, n(true, 36, 2).as_u32());
    assert_eq!(None, n(true, 36000, -1).as_u32());
    assert_eq!(None, Number::NaN.as_u32());
}

fn token(user_id: &str, expires_in: u32, access_token: &str, refresh_token: &str) -> Token {
    Token {
        user_id: user_id.to_string(),
        expires_in,
        access_token: access_token.to_string(),
        refresh_token: refresh_token.to_string(),
    }
}

#[test]
fn token_is_read_from_the_answer() {
    let text = "{\"token_type\":\"bearer\",\"expires_in\":3600,\"scope\":\"onedrive.readwrite\",\"access_token\":\"acc\",\"refresh_token\":\"ref\",\"user_id\":\"u1\"}";
    let mut t = Token::new("old".to_string());
    assert_eq!(token("", 0, "", "old"), t);
    assert_eq!(Ok(()), parse_token_response(&mut t, text));
    assert_eq!(token("u1", 3600, "acc", "ref"), t);
}

#[test]
fn an_answer_without_a_token_is_taken_in_as_far_as_it_goes() {
    let mut t = token("u0", 1, "a0", "r0");
    assert_eq!(Err(()), parse_token_response(&mut t, "{\"error\":\"invalid_grant\"}"));
    assert_eq!(Err(()), parse_token_response(&mut t, "not json"));
    assert_eq!(Err(()), parse_token_response(&mut t, "[]"));
    assert_eq!(
        Err(()),
        parse_token_response(&mut t, "{\"expires_in\":3600,\"access_token\":\"acc\",\"refresh_token\":\"ref\"}")
    );
    assert_eq!(token("u0", 1, "a0", "r0"), t);
    assert_eq!(
        Err(()),
        parse_token_response(&mut t, "{\"expires_in\":\"3600\",\"access_token\":\"acc\",\"refresh_token\":\"ref\",\"user_id\":\"u1\"}")
    );
    assert_eq!(token("u1", 1, "a0", "r0"), t);
    assert_eq!(
        Err(()),
        parse_token_response(&mut t, "{\"expires_in\":-1,\"access_token\":\"acc\",\"refresh_token\":\"ref\",\"user_id\":\"u2\"}")
    );
    assert_eq!(token("u2", 1, "a0", "r0"), t);
    assert_eq!(
        Err(()),
        parse_token_response(&mut t, "{\"expires_in\":7,\"access_token\":null,\"refresh_token\":\"ref\",\"user_id\":\"u3\"}")
    );
    assert_eq!(token("u3", 7, "a0", "r0"), t);
    assert_eq!(
        Err(()),
        parse_token_response(&mut t, "{\"expires_in\":8,\"access_token\":\"acc\",\"refresh_token\":null,\"user_id\":\"u4\"}")
    );
    assert_eq!(token("u4", 8, "acc", "r0"), t);
}

#[test]
fn fields_of_an_answer() {
    let doc = Node::Object(vec![
        ("s".to_string(), Node::Str("text".to_string())),
        ("n".to_string(), Node::Number(Number::Finite { positive: true, mantissa: 7, exponent: 0 })),
    ]);
    assert_eq!(Some("text".to_string()), field_text(&doc, "s"));
    assert_eq!(None, field_text(&doc, "n"));
    assert_eq!(None, field_text(&doc, "missing"));
    assert_eq!(None, field_text(&Node::Str("s".to_string()), "s"));
    assert_eq!(Some(7), field_count(&doc, "n"));
    assert_eq!(None, field_count(&doc, "s"));
    assert_eq!(None, field_count(&doc, "missing"));
    assert_eq!(None, field_count(&Node::Null, "n"));
    let mut t = Token::new(String::new());
    assert_eq!(Err(()), t.update(&doc));
    assert_eq!(Token::new(String::new()), t);
}

#[test]
fn with_a_refresh_token_the_step_is_to_use_it() {
    let expected = Access::Refresh(refresh_request("me", "r3fresh"));
    assert_eq!(expected, plan_access("me", "r3fresh", Some("c0de")));
    assert_eq!(expected, plan_access("me", "r3fresh", None));
}

#[test]
fn with_a_code_the_step_is_to_redeem_it() {
    assert_eq!(Access::Redeem(code_request("me", "c0de")), plan_access("me", "", Some("c0de")));
}

#[test]
fn with_neither_the_user_is_sent_to_authorize() {
    assert_eq!(Access::Authorize(AUTHORIZE.to_string()), plan_access("me", "", None));
    assert_eq!(Access::Authorize(AUTHORIZE.to_string()), plan_access("me", "", Some("")));
}

#[test]
fn the_address_to_authorize_at_is_read_back_as_a_string() {
    let mut config = JsonConfig::new("c.json", false);
    config.set(CODE_KEY, Value::String(authorize_url("me")));
    assert_eq!(AUTHORIZE, config.get_str(CODE_KEY).unwrap());
    assert_eq!("onedrive.code", CODE_KEY);
    assert_eq!("onedrive.refresh_token", REFRESH_TOKEN_KEY);
}
