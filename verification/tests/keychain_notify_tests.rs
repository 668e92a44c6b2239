use trending_bot::json::{JsonNumber, JsonValue};
use trending_bot::keychain::{Keychain, KeychainError};
use trending_bot::notify::{card_part, check_send_reply, token_from_reply, FeishuAppNotifier, NotifyError};

fn obj(members: Vec<(&str, JsonValue)>) -> JsonValue {
    JsonValue::Object(members.into_iter().map(|(k, v)| (k.to_string(), v)).collect())
}

#[test]
fn test_new_notifier() {
    let notifier = FeishuAppNotifier::new("app_id", "app_secret", "oc_test");
    assert_eq!(notifier.app_id, "app_id");
    assert_eq!(notifier.chat_id, "oc_test");
}

#[test]
fn credentials_from_environment_are_trimmed() {
    assert_eq!(Keychain::from_env(Some("  cli_a1 \n".into())), Some("cli_a1".to_string()));
    assert_eq!(Keychain::from_env(Some("   ".into())), None);
    assert_eq!(Keychain::from_env(None), None);
    assert_eq!(Keychain::app_id_service(), "FEISHU_APP_ID");
    assert_eq!(Keychain::app_secret_service(), "FEISHU_APP_SECRET");
    assert_eq!(Keychain::open_id_service(), "FEISHU_OPEN_ID");
    assert_eq!(
        Keychain::security_args("me", "FEISHU_APP_ID"),
        vec!["find-generic-password", "-a", "me", "-s", "FEISHU_APP_ID", "-w"]
    );
}

#[test]
fn credentials_from_security() {
    assert_eq!(Keychain::from_security("S", true, b"value\n".to_vec(), b"").unwrap(), "value");
    match Keychain::from_security("S", true, b" \n".to_vec(), b"") {
        Err(e @ KeychainError::Empty { .. }) => assert_eq!(e.message(), "S 的值为空，请检查 Keychain 配置"),
        other => panic!("unexpected {:?}", other),
    }
    match Keychain::from_security("S", true, vec![0xc3], b"") {
        Err(e @ KeychainError::NotUtf8) => assert_eq!(e.message(), "security 输出非 UTF-8"),
        other => panic!("unexpected {:?}", other),
    }
    match Keychain::from_security("S", false, vec![], b"no item\n") {
        Err(e @ KeychainError::Failed { .. }) => assert_eq!(
            e.message(),
            "读取 S 失败: no item\n请运行:\n  security add-generic-password -a \"$USER\" -s S -w \"<value>\" -U"
        ),
        other => panic!("unexpected {:?}", other),
    }
    assert_eq!(
        KeychainError::NotRun { service: "S".into() }.message(),
        "读取 Keychain 条目 S 失败"
    );
}

#[test]
fn feishu_requests_and_replies() {
    let n = FeishuAppNotifier::new("id", "secret", "oc_1");
    let t = n.token_request();
    assert_eq!(t.get_str("app_id"), Some("id"));
    assert_eq!(t.get_str("app_secret"), Some("secret"));
    let m = n.message_request("{}");
    assert_eq!(m.get_str("receive_id"), Some("oc_1"));
    assert_eq!(m.get_str("msg_type"), Some("interactive"));
    assert_eq!(m.get_str("content"), Some("{}"));

    let ok = obj(vec![
        ("code", JsonValue::Number(JsonNumber::PosInt(0))),
        ("tenant_access_token", JsonValue::String("t-1".into())),
    ]);
    assert_eq!(token_from_reply(&ok).unwrap(), "t-1");
    let bad = obj(vec![("code", JsonValue::Number(JsonNumber::PosInt(10003)))]);
    match token_from_reply(&bad) {
        Err(e @ NotifyError::TokenRejected { code: 10003 }) => {
            assert_eq!(e.message(), "获取 token 失败 (code=10003)")
        },
        other => panic!("unexpected {:?}", other),
    }
    match token_from_reply(&obj(vec![])) {
        Err(NotifyError::TokenRejected { code: -1 }) => {},
        other => panic!("unexpected {:?}", other),
    }
    let no_token = obj(vec![("code", JsonValue::Number(JsonNumber::PosInt(0)))]);
    assert!(matches!(token_from_reply(&no_token), Err(NotifyError::MissingToken)));
    assert!(check_send_reply(&no_token).is_ok());
    match check_send_reply(&obj(vec![("code", JsonValue::Number(JsonNumber::NegInt(-5)))])) {
        Err(e @ NotifyError::SendRejected { code: -5 }) => assert_eq!(e.message(), "发送消息失败 (code=-5)"),
        other => panic!("unexpected {:?}", other),
    }

    let payload = obj(vec![("msg_type", JsonValue::String("interactive".into())), ("card", obj(vec![]))]);
    assert!(card_part(&payload).as_object().map(|m| m.is_empty()).unwrap_or(false));
    let plain = obj(vec![("text", JsonValue::String("x".into()))]);
    assert_eq!(card_part(&plain).get_str("text"), Some("x"));
}

#[test]
fn transport_error_message_is_its_text() {
    assert_eq!(NotifyError::Transport { message: "boom".into() }.message(), "boom");
}
