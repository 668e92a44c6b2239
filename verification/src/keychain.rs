//! Feishu credentials: read from the environment, else from the macOS
//! Keychain through the `security` tool.
use vstd::prelude::*;
use crate::text::{chars_of, push_str, string_of, trim, trim_chars, utf8_lossy, utf8_text};

verus! {

/// The store of the Feishu credentials.
pub struct Keychain;

/// Why a credential could not be read.
#[derive(Debug)]
pub enum KeychainError {
    /// `security` could not be run.
    NotRun { service: String },
    /// `security` failed, with this error output.
    Failed { service: String, stderr: String },
    /// `security` printed something that is not UTF-8.
    NotUtf8,
    /// The entry is empty.
    Empty { service: String },
}

impl KeychainError {
    /// The message shown for this error.
    pub fn message(&self) -> (r: String)
        ensures
            match self {
                KeychainError::NotRun { service } => r@ == "读取 Keychain 条目 "@ + service@ + " 失败"@,
                KeychainError::Failed { service, stderr } => r@ == "读取 "@ + service@ + " 失败: "@
                    + trim(stderr@) + "\n请运行:\n  security add-generic-password -a \"$USER\" -s "@
                    + service@ + " -w \"<value>\" -U"@,
                KeychainError::NotUtf8 => r@ == "security 输出非 UTF-8"@,
                KeychainError::Empty { service } => r@ == service@ + " 的值为空，请检查 Keychain 配置"@,
            },
    {
        match self {
            KeychainError::NotRun { service } => {
                let mut v = chars_of("读取 Keychain 条目 ");
                push_str(&mut v, service.as_str());
                push_str(&mut v, " 失败");
                string_of(&v)
            },
            KeychainError::Failed { service, stderr } => {
                let mut v = chars_of("读取 ");
                push_str(&mut v, service.as_str());
                push_str(&mut v, " 失败: ");
                let e = trim_chars(&chars_of(stderr.as_str()));
                let es = string_of(&e);
                push_str(&mut v, es.as_str());
                push_str(&mut v, "\n请运行:\n  security add-generic-password -a \"$USER\" -s ");
                push_str(&mut v, service.as_str());
                push_str(&mut v, " -w \"<value>\" -U");
                string_of(&v)
            },
            KeychainError::NotUtf8 => string_of(&chars_of("security 输出非 UTF-8")),
            KeychainError::Empty { service } => {
                let mut v = chars_of(service.as_str());
                push_str(&mut v, " 的值为空，请检查 Keychain 配置");
                string_of(&v)
            },
        }
    }
}

/// The credential an environment variable gives: its trimmed text, unless
/// that is empty.
pub open spec fn env_credential(value: Option<Seq<char>>) -> Option<Seq<char>> {
    match value {
        Some(v) => if trim(v).len() > 0 {
            Some(trim(v))
        } else {
            None
        },
        None => None,
    }
}

/// The trimmed text of a string.
fn trimmed(s: &str) -> (r: String)
    ensures
        r@ == trim(s@),
{
    let t = trim_chars(&chars_of(s));
    string_of(&t)
}

impl Keychain {
    /// The service name of the Feishu App ID.
    pub fn app_id_service() -> (r: &'static str)
        ensures
            r@ == "FEISHU_APP_ID"@,
    {
        "FEISHU_APP_ID"
    }

    /// The service name of the Feishu App Secret.
    pub fn app_secret_service() -> (r: &'static str)
        ensures
            r@ == "FEISHU_APP_SECRET"@,
    {
        "FEISHU_APP_SECRET"
    }

    /// The service name of the Feishu Open ID.
    pub fn open_id_service() -> (r: &'static str)
        ensures
            r@ == "FEISHU_OPEN_ID"@,
    {
        "FEISHU_OPEN_ID"
    }

    /// The credential taken from the environment variable named like the
    /// service, when it is set: its trimmed text, unless empty.
    pub fn from_env(value: Option<String>) -> (r: Option<String>)
        ensures
            match r {
                Some(s) => env_credential(crate::item::opt_str(value)) == Some(s@),
                None => env_credential(crate::item::opt_str(value)) is None,
            },
    {
        match value {
            Some(v) => {
                let t = trimmed(v.as_str());
                if !t.as_str().is_empty() {
                    Some(t)
                } else {
                    None
                }
            },
            None => None,
        }
    }

    /// The arguments of `security` that read the entry `service` of `user`.
    pub fn security_args(user: &str, service: &str) -> (r: Vec<String>)
        ensures
            crate::cache::strs_view(r@) == seq![
                "find-generic-password"@,
                "-a"@,
                user@,
                "-s"@,
                service@,
                "-w"@,
            ],
    {
        let mut r: Vec<String> = Vec::new();
        r.push("find-generic-password".to_owned());
        r.push("-a".to_owned());
        r.push(user.to_owned());
        r.push("-s".to_owned());
        r.push(service.to_owned());
        r.push("-w".to_owned());
        assert(crate::cache::strs_view(r@) =~= seq![
            "find-generic-password"@,
            "-a"@,
            user@,
            "-s"@,
            service@,
            "-w"@,
        ]);
        r
    }

    /// The credential `security` printed: its output as UTF-8, trimmed, when
    /// it succeeded and that is not empty.
    pub fn from_security(service: &str, success: bool, stdout: Vec<u8>, stderr: &[u8]) -> (r: Result<
        String,
        KeychainError,
    >)
        ensures
            !success ==> (r matches Err(KeychainError::Failed { service: s, stderr: e }) && s@
                == service@ && e@ == crate::text::spec_utf8_lossy(stderr@)),
            success && !vstd::utf8::valid_utf8(stdout@) ==> r matches Err(KeychainError::NotUtf8),
            success && vstd::utf8::valid_utf8(stdout@) && trim(vstd::utf8::decode_utf8(stdout@)).len()
                == 0 ==> (r matches Err(KeychainError::Empty { service: s }) && s@ == service@),
            success && vstd::utf8::valid_utf8(stdout@) && trim(vstd::utf8::decode_utf8(stdout@)).len()
                > 0 ==> (r matches Ok(v) && v@ == trim(vstd::utf8::decode_utf8(stdout@))),
    {
        if !success {
            return Err(KeychainError::Failed { service: service.to_owned(), stderr: utf8_lossy(stderr) });
        }
        match utf8_text(stdout) {
            None => Err(KeychainError::NotUtf8),
            Some(text) => {
                let value = trimmed(text.as_str());
                if value.as_str().is_empty() {
                    Err(KeychainError::Empty { service: service.to_owned() })
                } else {
                    Ok(value)
                }
            },
        }
    }
}

} // verus!
