//! The decisions behind the chat assistant: its settings, how requests are
//! authenticated, when a cached key can be used, and what is sent.
use vstd::prelude::*;
use crate::browse::{CoreState, TabManager, find_tab, is_white_space};
use crate::context::{build_mdd_context, mdd_context};

verus! {

/// The assistant settings, as stored.
#[derive(Debug)]
pub struct Settings {
    pub ghe_host: String,
    pub llm_endpoint: String,
    pub llm_model: String,
    /// One of: copilot, azure, openai, bedrock.
    pub auth_method: String,
    pub token: Option<String>,
    pub api_version: Option<String>,
    pub copilot_token: Option<String>,
    pub copilot_expires_at: Option<i64>,
    pub copilot_api_base: Option<String>,
}

impl Default for Settings {
    fn default() -> (r: Self)
        ensures
            r.ghe_host@.len() == 0,
            r.llm_endpoint@.len() == 0,
            r.llm_model@ == "gpt-4o"@,
            r.auth_method@ == "copilot"@,
            r.token is None,
            r.api_version is None,
            r.copilot_token is None,
            r.copilot_expires_at is None,
            r.copilot_api_base is None,
    {
        Settings {
            ghe_host: String::new(),
            llm_endpoint: String::new(),
            llm_model: "gpt-4o".to_owned(),
            auth_method: "copilot".to_owned(),
            token: None,
            api_version: None,
            copilot_token: None,
            copilot_expires_at: None,
            copilot_api_base: None,
        }
    }
}

/// What the front end is shown of the settings (the token only as a flag).
#[derive(Debug)]
pub struct SettingsView {
    pub ghe_host: String,
    pub llm_endpoint: String,
    pub llm_model: String,
    pub auth_method: String,
    pub has_token: bool,
    pub api_version: Option<String>,
}

/// What the front end sends to change the settings.
#[derive(Debug)]
pub struct SettingsUpdate {
    pub ghe_host: String,
    pub llm_endpoint: String,
    pub llm_model: String,
    pub auth_method: String,
    /// The key for providers other than Copilot; empty or missing keeps the stored one.
    pub api_token: Option<String>,
    pub api_version: Option<String>,
}

/// The settings as the front end sees them.
pub fn settings_view(s: Settings) -> (r: SettingsView)
    ensures
        r.ghe_host == s.ghe_host,
        r.llm_endpoint == s.llm_endpoint,
        r.llm_model == s.llm_model,
        r.auth_method == s.auth_method,
        r.has_token == s.token is Some,
        r.api_version == s.api_version,
{
    let has_token = s.token.is_some();
    SettingsView {
        ghe_host: s.ghe_host,
        llm_endpoint: s.llm_endpoint,
        llm_model: s.llm_model,
        auth_method: s.auth_method,
        has_token,
        api_version: s.api_version,
    }
}

/// The providers whose key is entered in the settings.
pub open spec fn keyed_provider(method: Seq<char>) -> bool {
    method == "azure"@ || method == "openai"@ || method == "bedrock"@
}

fn keyed_provider_exec(method: &str) -> (r: bool)
    ensures
        r == keyed_provider(method@),
{
    crate::text::str_eq(method, "azure") || crate::text::str_eq(method, "openai") || crate::text::str_eq(
        method,
        "bedrock",
    )
}

/// A key was entered (not empty).
pub open spec fn given_key(k: Option<String>) -> bool {
    match k {
        Some(t) => t@.len() > 0,
        None => false,
    }
}

/// Take over an update: the plain fields, and the key of a keyed provider
/// when one is given (not empty); the Copilot fields stay.
pub fn apply_settings_update(current: &mut Settings, update: SettingsUpdate)
    ensures
        final(current).ghe_host == update.ghe_host,
        final(current).llm_endpoint == update.llm_endpoint,
        final(current).llm_model == update.llm_model,
        final(current).auth_method@ == update.auth_method@,
        final(current).api_version == update.api_version,
        final(current).token == if keyed_provider(update.auth_method@) && given_key(update.api_token) {
            update.api_token
        } else {
            old(current).token
        },
        final(current).copilot_token == old(current).copilot_token,
        final(current).copilot_expires_at == old(current).copilot_expires_at,
        final(current).copilot_api_base == old(current).copilot_api_base,
{
    let keyed = keyed_provider_exec(update.auth_method.as_str());
    current.ghe_host = update.ghe_host;
    current.llm_endpoint = update.llm_endpoint;
    current.llm_model = update.llm_model;
    current.auth_method = update.auth_method;
    current.api_version = update.api_version;
    if keyed {
        match update.api_token {
            Some(t) => {
                if !t.as_str().is_empty() {
                    current.token = Some(t);
                }
            },
            None => {},
        }
    }
}

/// Forget every token.
pub fn clear_tokens(settings: &mut Settings)
    ensures
        final(settings).token is None,
        final(settings).copilot_token is None,
        final(settings).copilot_expires_at is None,
        final(settings).copilot_api_base is None,
        final(settings).ghe_host == old(settings).ghe_host,
        final(settings).llm_endpoint == old(settings).llm_endpoint,
        final(settings).llm_model == old(settings).llm_model,
        final(settings).auth_method == old(settings).auth_method,
        final(settings).api_version == old(settings).api_version,
{
    settings.token = None;
    settings.copilot_token = None;
    settings.copilot_expires_at = None;
    settings.copilot_api_base = None;
}

/// The header that authenticates a request to a keyed provider: `api-key`
/// for Azure, a bearer `Authorization` for OpenAI and Bedrock.
pub fn build_auth_header(settings: &Settings) -> (r: Result<(String, String), String>)
    ensures
        match settings.token {
            None => r matches Err(e) && e@ == "Not authenticated. Please configure authentication in settings."@,
            Some(t) => if settings.auth_method@ == "azure"@ {
                r matches Ok(h) && h.0@ == "api-key"@ && h.1@ == t@
            } else if settings.auth_method@ == "openai"@ || settings.auth_method@ == "bedrock"@ {
                r matches Ok(h) && h.0@ == "Authorization"@ && h.1@ == "Bearer "@ + t@
            } else {
                r matches Err(e) && e@ == "Unknown auth method: "@ + settings.auth_method@
            },
        },
{
    let token = match &settings.token {
        Some(t) => t,
        None => {
            return Err("Not authenticated. Please configure authentication in settings.".to_owned());
        },
    };
    let method = settings.auth_method.as_str();
    if crate::text::str_eq(method, "azure") {
        Ok(("api-key".to_owned(), token.clone()))
    } else if crate::text::str_eq(method, "openai") || crate::text::str_eq(method, "bedrock") {
        let mut v = "Bearer ".to_owned();
        v.append(token.as_str());
        Ok(("Authorization".to_owned(), v))
    } else {
        let mut e = "Unknown auth method: ".to_owned();
        e.append(method);
        Err(e)
    }
}

/// The Copilot API address of a host.
pub open spec fn copilot_endpoint(host: Seq<char>) -> Seq<char> {
    "https://copilot-api."@ + host
}

/// Whether a stored Copilot key can be used at `now` (seconds): it must
/// stay valid for five more minutes. Without a login this is an error `Not
/// authenticated. Please log in first.`; `None` means a new key is needed.
pub fn cached_copilot_key(settings: &Settings, now: i64) -> (r: Result<Option<(String, String)>, String>)
    ensures
        settings.token is None <==> r is Err,
        r matches Err(e) ==> e@ == "Not authenticated. Please log in first."@,
        r matches Ok(o) ==> match (settings.copilot_token, settings.copilot_expires_at) {
            (Some(key), Some(exp)) => if exp > (if now > i64::MAX - 300 {
                i64::MAX as int
            } else {
                now + 300
            }) {
                o matches Some(k) && k.0@ == key@ && k.1@ == match settings.copilot_api_base {
                    Some(b) => b@,
                    None => copilot_endpoint(settings.ghe_host@),
                }
            } else {
                o is None
            },
            _ => o is None,
        },
{
    if settings.token.is_none() {
        return Err("Not authenticated. Please log in first.".to_owned());
    }
    match (&settings.copilot_token, settings.copilot_expires_at) {
        (Some(key), Some(exp)) => {
            let limit = if now > i64::MAX - 300 {
                i64::MAX
            } else {
                now + 300
            };
            if exp > limit {
                let base = match &settings.copilot_api_base {
                    Some(b) => b.clone(),
                    None => {
                        let mut e = "https://copilot-api.".to_owned();
                        e.append(settings.ghe_host.as_str());
                        e
                    },
                };
                Ok(Some((key.clone(), base)))
            } else {
                Ok(None)
            }
        },
        _ => Ok(None),
    }
}

/// Store a freshly exchanged Copilot key; returns the key and the API
/// address to use (the one returned with it, or the host's default).
pub fn record_copilot_key(settings: &mut Settings, key: String, expires_at: i64, api_base: Option<String>) -> (r: (String, String))
    ensures
        final(settings).copilot_token matches Some(k) && k@ == key@,
        final(settings).copilot_expires_at == Some(expires_at),
        final(settings).copilot_api_base == match api_base {
            Some(b) => Some(b),
            None => old(settings).copilot_api_base,
        },
        final(settings).token == old(settings).token,
        final(settings).ghe_host == old(settings).ghe_host,
        r.0@ == key@,
        r.1@ == match api_base {
            Some(b) => b@,
            None => copilot_endpoint(old(settings).ghe_host@),
        },
{
    settings.copilot_token = Some(key.clone());
    settings.copilot_expires_at = Some(expires_at);
    let endpoint = match api_base {
        Some(b) => {
            settings.copilot_api_base = Some(b.clone());
            b
        },
        None => {
            let mut e = "https://copilot-api.".to_owned();
            e.append(settings.ghe_host.as_str());
            e
        },
    };
    (key, endpoint)
}

/// The state of a device login poll.
#[derive(Debug)]
pub struct PollResult {
    pub status: String,
}

/// What a device login poll answers: `authorized` when a token came (it is
/// stored), else the state named by the error.
pub fn poll_status(access_token: Option<String>, error: Option<&str>, settings: &mut Settings) -> (r: PollResult)
    ensures
        match access_token {
            Some(t) => r.status@ == "authorized"@ && final(settings).token == Some(t),
            None => final(settings).token == old(settings).token && r.status@ == match error {
                Some(e) => if e@ == "authorization_pending"@ {
                    "pending"@
                } else if e@ == "slow_down"@ {
                    "slow_down"@
                } else if e@ == "expired_token"@ {
                    "expired"@
                } else {
                    "error"@
                },
                None => "error"@,
            },
        },
        final(settings).copilot_token == old(settings).copilot_token,
        final(settings).auth_method == old(settings).auth_method,
{
    match access_token {
        Some(t) => {
            settings.token = Some(t);
            PollResult { status: "authorized".to_owned() }
        },
        None => {
            let status = match error {
                Some(e) => if crate::text::str_eq(e, "authorization_pending") {
                    "pending"
                } else if crate::text::str_eq(e, "slow_down") {
                    "slow_down"
                } else if crate::text::str_eq(e, "expired_token") {
                    "expired"
                } else {
                    "error"
                },
                None => "error",
            };
            PollResult { status: status.to_owned() }
        },
    }
}

/// A chat message.
#[derive(Debug)]
pub struct ChatMessage {
    pub role: String,
    pub content: String,
}

/// The context for the chat: that of the active tab when it names an ECU,
/// else nothing.
pub open spec fn chat_context_of(tabs: &TabManager) -> Seq<char> {
    match tabs.active_tab {
        Some(id) => match find_tab(tabs.tabs@, id@) {
            Some(i) => if tabs.tabs@[i].1.core.ecu_name@.len() > 0 {
                mdd_context(&tabs.tabs@[i].1.core)
            } else {
                Seq::empty()
            },
            None => Seq::empty(),
        },
        None => Seq::empty(),
    }
}

/// The context handed to the chat assistant for the open tabs.
pub fn chat_context(tabs: &TabManager) -> (r: String)
    ensures
        r@ == chat_context_of(tabs),
{
    match tabs.active_core() {
        Ok(core) => {
            if core.ecu_name.as_str().is_empty() {
                String::new()
            } else {
                build_mdd_context(core)
            }
        },
        Err(_) => String::new(),
    }
}

/// The messages sent: a system message with the context (when there is
/// one) before the conversation.
pub fn chat_messages(context: String, messages: Vec<ChatMessage>) -> (r: Vec<ChatMessage>)
    ensures
        context@.len() == 0 ==> r@ == messages@,
        context@.len() > 0 ==> r@.len() == messages@.len() + 1 && r@[0].role@ == "system"@ && r@[0].content
            == context && r@.subrange(1, r@.len() as int) == messages@,
{
    if context.as_str().is_empty() {
        return messages;
    }
    let mut all: Vec<ChatMessage> = Vec::new();
    all.push(ChatMessage { role: "system".to_owned(), content: context });
    let mut rest = messages;
    let ghost m = rest@;
    all.append(&mut rest);
    assert(all@.subrange(1, all@.len() as int) =~= m);
    all
}

/// The first character after leading white space is `<`: the reply is an
/// HTML page (a login redirect), not an answer.
pub open spec fn html_reply(body: Seq<char>) -> bool
    decreases body.len(),
{
    if body.len() == 0 {
        false
    } else if is_white_space(body[0]) {
        html_reply(body.drop_first())
    } else {
        body[0] == '<'
    }
}

/// Whether a reply body is an HTML page.
pub fn is_html_reply(body: &str) -> (r: bool)
    ensures
        r == html_reply(body@),
{
    let chars = crate::text::chars_of(body);
    let mut i: usize = 0;
    assert(body@.subrange(0, body@.len() as int) =~= body@);
    while i < chars.len() && crate::browse::is_white_space_exec(chars[i])
        invariant
            0 <= i <= chars@.len(),
            chars@ == body@,
            html_reply(body@) == html_reply(body@.subrange(i as int, body@.len() as int)),
        decreases chars@.len() - i,
    {
        proof {
            let s = body@.subrange(i as int, body@.len() as int);
            assert(s.drop_first() =~= body@.subrange(i + 1, body@.len() as int));
        }
        i = i + 1;
    }
    if i < chars.len() {
        proof {
            let s = body@.subrange(i as int, body@.len() as int);
            assert(s[0] == chars@[i as int]);
        }
        chars[i] == '<'
    } else {
        assert(body@.subrange(i as int, body@.len() as int).len() == 0);
        false
    }
}

} // verus!
