//! Pushing a card to a Feishu group chat through a Feishu app: the request
//! bodies and the reading of the replies.
use vstd::prelude::*;
use crate::json::{members_view, JsonValue, JsonView};

verus! {

/// Why a message could not be pushed.
#[derive(Debug)]
pub enum NotifyError {
    /// The token request was answered with this non-zero code.
    TokenRejected { code: i64 },
    /// The token reply had no `tenant_access_token`.
    MissingToken,
    /// The message was answered with this non-zero code.
    SendRejected { code: i64 },
    /// A request could not be made or its reply not read.
    Transport { message: String },
}

impl NotifyError {
    /// The start of the message shown for this error; the reply's `msg`
    /// follows it.
    pub fn message(&self) -> (r: String)
        ensures
            match self {
                NotifyError::TokenRejected { code } => r@ == "获取 token 失败 (code="@
                    + crate::text::int_text(*code as int) + ")"@,
                NotifyError::MissingToken => r@ == "token 响应缺少 tenant_access_token 字段"@,
                NotifyError::SendRejected { code } => r@ == "发送消息失败 (code="@
                    + crate::text::int_text(*code as int) + ")"@,
                NotifyError::Transport { message } => r@ == message@,
            },
    {
        match self {
            NotifyError::TokenRejected { code } => {
                let mut v = crate::text::chars_of("获取 token 失败 (code=");
                let c = crate::text::i64_chars(*code);
                crate::text::push_all(&mut v, &c);
                crate::text::push_str(&mut v, ")");
                crate::text::string_of(&v)
            },
            NotifyError::MissingToken => crate::text::string_of(
                &crate::text::chars_of("token 响应缺少 tenant_access_token 字段"),
            ),
            NotifyError::SendRejected { code } => {
                let mut v = crate::text::chars_of("发送消息失败 (code=");
                let c = crate::text::i64_chars(*code);
                crate::text::push_all(&mut v, &c);
                crate::text::push_str(&mut v, ")");
                crate::text::string_of(&v)
            },
            NotifyError::Transport { message } => message.clone(),
        }
    }
}

/// A channel that takes a card and delivers it.
pub trait Notifier {
    /// Delivers the card `payload`.
    fn send(&self, payload: &JsonValue) -> Result<(), NotifyError>;
}

/// The credentials and target of a Feishu app that pushes to a group chat.
#[derive(Debug)]
pub struct FeishuAppNotifier {
    pub app_id: String,
    pub app_secret: String,
    /// The group chat, `oc_...`.
    pub chat_id: String,
}

/// The code of a Feishu reply: its `code` member, `-1` when missing or not
/// an `i64`.
pub open spec fn reply_code(body: JsonView) -> i64 {
    match body.member_i64("code"@) {
        Some(c) => c,
        None => -1i64,
    }
}

impl FeishuAppNotifier {
    /// A notifier for the app `app_id` that pushes to `chat_id`.
    pub fn new(app_id: &str, app_secret: &str, chat_id: &str) -> (r: FeishuAppNotifier)
        ensures
            r.app_id@ == app_id@,
            r.app_secret@ == app_secret@,
            r.chat_id@ == chat_id@,
    {
        FeishuAppNotifier {
            app_id: app_id.to_owned(),
            app_secret: app_secret.to_owned(),
            chat_id: chat_id.to_owned(),
        }
    }

    /// The body of the request for a tenant access token.
    pub fn token_request(&self) -> (r: JsonValue)
        ensures
            r@ == JsonView::Obj(
                seq![
                    ("app_id"@, JsonView::Str(self.app_id@)),
                    ("app_secret"@, JsonView::Str(self.app_secret@)),
                ],
            ),
    {
        let mut m: Vec<(String, JsonValue)> = Vec::new();
        m.push(("app_id".to_owned(), JsonValue::text(self.app_id.as_str())));
        m.push(("app_secret".to_owned(), JsonValue::text(self.app_secret.as_str())));
        assert(members_view(m@) =~= seq![
            ("app_id"@, JsonView::Str(self.app_id@)),
            ("app_secret"@, JsonView::Str(self.app_secret@)),
        ]);
        JsonValue::object(m)
    }

    /// The body of the request that posts the card text `content` to the chat.
    pub fn message_request(&self, content: &str) -> (r: JsonValue)
        ensures
            r@ == JsonView::Obj(
                seq![
                    ("receive_id"@, JsonView::Str(self.chat_id@)),
                    ("msg_type"@, JsonView::Str("interactive"@)),
                    ("content"@, JsonView::Str(content@)),
                ],
            ),
    {
        let mut m: Vec<(String, JsonValue)> = Vec::new();
        m.push(("receive_id".to_owned(), JsonValue::text(self.chat_id.as_str())));
        m.push(("msg_type".to_owned(), JsonValue::text("interactive")));
        m.push(("content".to_owned(), JsonValue::text(content)));
        assert(members_view(m@) =~= seq![
            ("receive_id"@, JsonView::Str(self.chat_id@)),
            ("msg_type"@, JsonView::Str("interactive"@)),
            ("content"@, JsonView::Str(content@)),
        ]);
        JsonValue::object(m)
    }
}

/// The code of a Feishu reply: its `code` member, `-1` when missing.
fn code_of(body: &JsonValue) -> (r: i64)
    ensures
        r == reply_code(body@),
{
    match body.get_i64("code") {
        Some(c) => c,
        None => -1,
    }
}

/// The tenant access token of a token reply: the reply must have code 0 and
/// a string `tenant_access_token`.
pub fn token_from_reply(body: &JsonValue) -> (r: Result<String, NotifyError>)
    ensures
        reply_code(body@) != 0 ==> (r matches Err(NotifyError::TokenRejected { code }) && code
            == reply_code(body@)),
        reply_code(body@) == 0 && body.member_str("tenant_access_token"@) is None ==> r matches Err(
            NotifyError::MissingToken,
        ),
        reply_code(body@) == 0 ==> match body.member_str("tenant_access_token"@) {
            Some(t) => r matches Ok(v) && v@ == t,
            None => true,
        },
{
    let code = code_of(body);
    if code != 0 {
        return Err(NotifyError::TokenRejected { code });
    }
    match body.get_str("tenant_access_token") {
        Some(t) => Ok(t.to_owned()),
        None => Err(NotifyError::MissingToken),
    }
}

/// Whether the reply to a message accepted it: code 0.
pub fn check_send_reply(body: &JsonValue) -> (r: Result<(), NotifyError>)
    ensures
        reply_code(body@) == 0 ==> r is Ok,
        reply_code(body@) != 0 ==> (r matches Err(NotifyError::SendRejected { code }) && code
            == reply_code(body@)),
{
    let code = code_of(body);
    if code != 0 {
        Err(NotifyError::SendRejected { code })
    } else {
        Ok(())
    }
}

/// The part of a payload that a Feishu message carries: its `card` member,
/// or the whole payload when it has none.
pub fn card_part(payload: &JsonValue) -> (r: &JsonValue)
    ensures
        match payload.member("card"@) {
            Some(c) => r@ == c,
            None => *r == *payload,
        },
{
    match payload.get("card") {
        Some(c) => c,
        None => payload,
    }
}

} // verus!
