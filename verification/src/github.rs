//! GitHub OAuth (device flow). The HTTP exchanges are made by the application; this
//! module holds the records they carry and the decisions of the polling loop: when to
//! wait, when to ask for the token, and what each reply means.

use vstd::prelude::*;

use crate::text;

verus! {

/// Client ID for Kartoteka's GitHub OAuth App (Device Flow enabled). Client IDs are not
/// secret. This is a placeholder until such an app is registered.
pub const CLIENT_ID: &'static str = "REPLACE_WITH_KARTOTEKA_OAUTH_APP_CLIENT_ID";

/// The `User-Agent` every request to GitHub carries.
pub const USER_AGENT: &'static str = "Kartoteka (https://github.com/calstfrancis/kartoteka)";

/// Where the device flow starts.
pub const DEVICE_CODE_URL: &'static str = "https://github.com/login/device/code";

/// Where the device flow is polled for the access token.
pub const ACCESS_TOKEN_URL: &'static str = "https://github.com/login/oauth/access_token";

/// The authenticated user.
pub const USER_URL: &'static str = "https://api.github.com/user";

/// Where a repository is created under the authenticated user.
pub const REPOS_URL: &'static str = "https://api.github.com/user/repos";

/// Whether a real client id has been filled in.
pub fn is_configured() -> (b: bool)
    ensures
        b == !text::starts_with(CLIENT_ID@, "REPLACE_WITH"@),
{
    let id = text::chars_of(CLIENT_ID);
    let placeholder = text::chars_of("REPLACE_WITH");
    !text::matches_at_exec(&id, 0, &placeholder)
}

/// Why signing in to GitHub failed.
#[derive(Debug)]
pub enum GithubAuthError {
    /// A request could not be made or was answered with an error status; the failure's
    /// own description, as the HTTP client gives it.
    Network(String),
    /// Sign-in was cancelled or denied.
    AccessDenied,
    /// Sign-in was cancelled.
    Cancelled,
    /// The sign-in code expired before it was approved.
    ExpiredToken,
    /// GitHub answered with an error of its own.
    Api(String),
}

impl GithubAuthError {
    /// The sentence shown for this error.
    pub fn message(&self) -> (s: String)
        ensures
            match self {
                GithubAuthError::Network(e) => s@ == "network error: "@ + e@,
                GithubAuthError::AccessDenied => s@ == "sign-in was cancelled or denied"@,
                GithubAuthError::Cancelled => s@ == "sign-in was cancelled"@,
                GithubAuthError::ExpiredToken => s@
                    == "the sign-in code expired before it was approved; try again"@,
                GithubAuthError::Api(m) => s@ == "GitHub error: "@ + m@,
            },
    {
        match self {
            GithubAuthError::Network(e) => {
                let mut s = text::owned("network error: ");
                text::push_str(&mut s, e.as_str());
                s
            },
            GithubAuthError::AccessDenied => text::owned("sign-in was cancelled or denied"),
            GithubAuthError::Cancelled => text::owned("sign-in was cancelled"),
            GithubAuthError::ExpiredToken => text::owned(
                "the sign-in code expired before it was approved; try again",
            ),
            GithubAuthError::Api(m) => {
                let mut s = text::owned("GitHub error: ");
                text::push_str(&mut s, m.as_str());
                s
            },
        }
    }
}

/// GitHub's answer to the device-code request: a user code and verification URL to
/// display, and a device code used to poll for approval.
#[derive(Debug, Clone)]
pub struct DeviceCodeResponse {
    pub device_code: String,
    pub user_code: String,
    pub verification_uri: String,
    pub expires_in: u64,
    pub interval: u64,
}

/// GitHub's answer to one poll of the access-token endpoint.
#[derive(Debug, Clone)]
pub struct AccessTokenResponse {
    pub access_token: Option<String>,
    pub error: Option<String>,
}

// ---------------------------------------------------------------------------
// The polling loop
// ---------------------------------------------------------------------------

/// Where the polling loop stands: how many seconds to wait between polls, and how many
/// of them have passed since the last poll.
#[derive(Debug, Clone, Copy)]
pub struct TokenPoll {
    pub interval_secs: u64,
    pub slept_secs: u64,
}

/// What happened since the loop last decided.
#[derive(Debug)]
pub enum PollEvent {
    /// The loop is free to go on; `cancelled` is the caller's cancel flag and
    /// `past_deadline` whether the device code's lifetime has run out.
    Tick { cancelled: bool, past_deadline: bool },
    /// The access-token endpoint answered.
    Reply(AccessTokenResponse),
}

/// What the loop asks its driver to do next.
#[derive(Debug)]
pub enum PollAction {
    /// Sleep one second, then send a `Tick`.
    Sleep,
    /// Send a `Tick` right away.
    Continue,
    /// Ask the access-token endpoint, then send its `Reply`.
    Request,
    /// Stop with this outcome.
    Finish(Result<String, GithubAuthError>),
}

impl TokenPoll {
    /// The state invariant: the interval is at least one second and the seconds slept
    /// never exceed it.
    pub open spec fn wf(self) -> bool {
        1 <= self.interval_secs && self.slept_secs <= self.interval_secs
    }

    /// A loop for `device`: poll every `device.interval` seconds (at least one), having
    /// slept none yet.
    pub fn new(device: &DeviceCodeResponse) -> (p: TokenPoll)
        ensures
            p.interval_secs == (if device.interval < 1 {
                1
            } else {
                device.interval
            }),
            p.slept_secs == 0,
            p.wf(),
    {
        let interval = if device.interval < 1 {
            1
        } else {
            device.interval
        };
        TokenPoll { interval_secs: interval, slept_secs: 0 }
    }

    /// One decision of the loop.
    ///
    /// On a tick: a set cancel flag stops with `Cancelled`; otherwise, while fewer
    /// seconds than the interval have been slept, sleep one more; once the interval has
    /// passed, stop with `ExpiredToken` past the deadline, else poll.
    ///
    /// On a reply: a token stops with it; `authorization_pending` starts the next wait;
    /// `slow_down` also lengthens the interval by five seconds; `expired_token` and
    /// `access_denied` stop with `ExpiredToken` and `AccessDenied`; any other error code
    /// stops with `Api` of it, and a reply with neither a token nor an error stops with
    /// `Api("unknown response")`.
    pub fn step(&mut self, event: PollEvent) -> (a: PollAction)
        requires
            old(self).wf(),
        ensures
            final(self).wf(),
            match event {
                PollEvent::Tick { cancelled, past_deadline } => {
                    &&& final(self).interval_secs == old(self).interval_secs
                    &&& if cancelled {
                        &&& a matches PollAction::Finish(Err(GithubAuthError::Cancelled))
                        &&& final(self).slept_secs == old(self).slept_secs
                    } else if old(self).slept_secs < old(self).interval_secs {
                        &&& a is Sleep
                        &&& final(self).slept_secs == old(self).slept_secs + 1
                    } else if past_deadline {
                        &&& a matches PollAction::Finish(Err(GithubAuthError::ExpiredToken))
                        &&& final(self).slept_secs == old(self).slept_secs
                    } else {
                        &&& a is Request
                        &&& final(self).slept_secs == old(self).slept_secs
                    }
                },
                PollEvent::Reply(resp) => match resp.access_token {
                    Some(token) => {
                        &&& a matches PollAction::Finish(Ok(t)) && t@ == token@
                        &&& *final(self) == *old(self)
                    },
                    None => match resp.error {
                        Some(code) => if code@ == "authorization_pending"@ {
                            &&& a is Continue
                            &&& final(self).slept_secs == 0
                            &&& final(self).interval_secs == old(self).interval_secs
                        } else if code@ == "slow_down"@ {
                            &&& a is Continue
                            &&& final(self).slept_secs == 0
                            &&& final(self).interval_secs == (if old(self).interval_secs
                                <= u64::MAX - 5 {
                                old(self).interval_secs + 5
                            } else {
                                u64::MAX as int
                            })
                        } else if code@ == "expired_token"@ {
                            &&& a matches PollAction::Finish(Err(GithubAuthError::ExpiredToken))
                            &&& *final(self) == *old(self)
                        } else if code@ == "access_denied"@ {
                            &&& a matches PollAction::Finish(Err(GithubAuthError::AccessDenied))
                            &&& *final(self) == *old(self)
                        } else {
                            &&& a matches PollAction::Finish(Err(GithubAuthError::Api(m)))
                                && m@ == code@
                            &&& *final(self) == *old(self)
                        },
                        None => {
                            &&& a matches PollAction::Finish(Err(GithubAuthError::Api(m)))
                                && m@ == "unknown response"@
                            &&& *final(self) == *old(self)
                        },
                    },
                },
            },
    {
        match event {
            PollEvent::Tick { cancelled, past_deadline } => {
                if cancelled {
                    PollAction::Finish(Err(GithubAuthError::Cancelled))
                } else if self.slept_secs < self.interval_secs {
                    self.slept_secs = self.slept_secs + 1;
                    PollAction::Sleep
                } else if past_deadline {
                    PollAction::Finish(Err(GithubAuthError::ExpiredToken))
                } else {
                    PollAction::Request
                }
            },
            PollEvent::Reply(resp) => match resp.access_token {
                Some(token) => PollAction::Finish(Ok(token)),
                None => match resp.error {
                    Some(code) => {
                        let c = text::chars_of(code.as_str());
                        if text::chars_eq(&c, &text::chars_of("authorization_pending")) {
                            self.slept_secs = 0;
                            PollAction::Continue
                        } else if text::chars_eq(&c, &text::chars_of("slow_down")) {
                            self.interval_secs = self.interval_secs.saturating_add(5);
                            self.slept_secs = 0;
                            PollAction::Continue
                        } else if text::chars_eq(&c, &text::chars_of("expired_token")) {
                            PollAction::Finish(Err(GithubAuthError::ExpiredToken))
                        } else if text::chars_eq(&c, &text::chars_of("access_denied")) {
                            PollAction::Finish(Err(GithubAuthError::AccessDenied))
                        } else {
                            PollAction::Finish(Err(GithubAuthError::Api(code)))
                        }
                    },
                    None => PollAction::Finish(
                        Err(GithubAuthError::Api(text::owned("unknown response"))),
                    ),
                },
            },
        }
    }
}

/// The form that starts the device flow: the client id, asking for the `repo` scope.
pub fn device_code_form(client_id: &str) -> (f: Vec<(String, String)>)
    ensures
        f@.len() == 2,
        f@[0].0@ == "client_id"@ && f@[0].1@ == client_id@,
        f@[1].0@ == "scope"@ && f@[1].1@ == "repo"@,
{
    let mut f: Vec<(String, String)> = Vec::new();
    f.push((text::owned("client_id"), text::owned(client_id)));
    f.push((text::owned("scope"), text::owned("repo")));
    f
}

/// The form of one poll for the access token.
pub fn access_token_form(client_id: &str, device_code: &str) -> (f: Vec<(String, String)>)
    ensures
        f@.len() == 3,
        f@[0].0@ == "client_id"@ && f@[0].1@ == client_id@,
        f@[1].0@ == "device_code"@ && f@[1].1@ == device_code@,
        f@[2].0@ == "grant_type"@ && f@[2].1@ == "urn:ietf:params:oauth:grant-type:device_code"@,
{
    let mut f: Vec<(String, String)> = Vec::new();
    f.push((text::owned("client_id"), text::owned(client_id)));
    f.push((text::owned("device_code"), text::owned(device_code)));
    f.push((text::owned("grant_type"), text::owned("urn:ietf:params:oauth:grant-type:device_code")));
    f
}

/// The error for a refused repository creation: GitHub's status line and its reply.
pub fn repo_creation_failure(status: &str, body: &str) -> (e: GithubAuthError)
    ensures
        e matches GithubAuthError::Api(m) && m@ == status@ + ": "@ + body@,
{
    let mut m = text::owned(status);
    text::push_str(&mut m, ": ");
    text::push_str(&mut m, body);
    GithubAuthError::Api(m)
}

} // verus!
