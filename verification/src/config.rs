//! The configuration types the core computes with, and their defaults.
//! Loading them from disk is the surrounding process's business.

use vstd::prelude::*;
use crate::tasks::Task;
use crate::template::get_and_format;
use crate::value::Value;
use crate::writer::{fcs_view, FormatConfig, FormatsConfigs};

verus! {

broadcast use vstd::seq::group_seq_axioms, vstd::std_specs::vec::group_vec_axioms;

/// How the broker connection authenticates.
pub enum NatsAuth {
    UserPassword { user: String, password: String },
    NKey(String),
    Token(String),
}

/// The broker section: servers, authentication, timing and the subject
/// templates of the role.
pub struct NatsConfig {
    pub server: Vec<String>,
    pub auth: Option<NatsAuth>,
    pub ping_interval: u64,
    pub tls: bool,
    pub from: Option<Vec<String>>,
    pub to: Option<Vec<String>>,
    pub queue: Option<String>,
}

/// The default broker ping interval, in seconds.
pub fn default_ping_interval() -> (r: u64)
    ensures
        r == 15,
{
    15
}

/// The reconnect policy of the console writer.
pub struct ReconnectConfig {
    pub max_attempts: i64,
    pub sleep: u64,
}

impl Default for ReconnectConfig {
    /// The default policy: twenty attempts, ten seconds apart.
    fn default() -> (r: ReconnectConfig)
        ensures
            r.max_attempts == 20 && r.sleep == 10,
    {
        ReconnectConfig { max_attempts: 20, sleep: 10 }
    }
}

/// The console section: where to connect, how to authenticate, what to
/// send first, and the scheduled tasks.
pub struct EconConfig {
    pub host: String,
    pub password: String,
    pub auth_message: String,
    pub first_commands: Vec<String>,
    pub tasks: Vec<Task>,
    pub reconnect: ReconnectConfig,
}

/// The default authentication-success literal.
pub fn default_auth_message() -> (r: String)
    ensures
        r@ == "Authentication successful"@,
{
    "Authentication successful".to_owned()
}

/// The default queue-group template of a transformer path.
pub fn default_paths_queue() -> (r: String)
    ensures
        r@ == "handler_{{0}}"@,
{
    "handler_{{0}}".to_owned()
}

impl EconConfig {
    /// The console address text: the host template expanded with the
    /// arguments. Resolving it to a socket address is the caller's step.
    pub fn get_econ_addr(&self, args: &Value) -> (r: String)
        ensures
            r@ == crate::template::spec_render(self.host@, args@, Seq::<Seq<char>>::empty()),
    {
        let empty: Vec<String> = Vec::new();
        proof {
            assert(crate::text::strs_view(empty@) =~= Seq::<Seq<char>>::empty());
        }
        get_and_format(self.host.as_str(), args, &empty)
    }
}

/// One transformer path: the inbound subject, its rules, the outbound
/// subjects, the per-path argument overlay and the queue-group template.
pub struct HandlerPaths {
    pub from: String,
    pub regex: Vec<String>,
    pub to: Vec<String>,
    pub args: Value,
    pub queue: String,
}

/// What one console connection attempt observed.
pub enum ConnectOutcome {
    /// The socket could not be opened.
    ConnectFailed,
    /// Authentication succeeded; the session is ready.
    AuthOk,
    /// The console refused the credentials.
    AuthRejected,
    /// The handshake broke on a transport error.
    AuthErr,
}

/// What the connect loop does next.
#[derive(Debug, PartialEq, Eq, Structural)]
pub enum ConnectStep {
    /// The session is ready; stop.
    Done,
    /// Give up; the caller fails.
    Fail,
    /// Sleep and try again with a fresh session.
    RetryAfterSleep,
}

/// What a connection attempt's outcome means: success ends the loop,
/// refused credentials end it at once, and a transport failure retries
/// until the attempt bound is reached.
pub open spec fn spec_connect_step(attempt: u64, max_attempts: u64, outcome: ConnectOutcome) -> ConnectStep {
    match outcome {
        ConnectOutcome::AuthOk => ConnectStep::Done,
        ConnectOutcome::AuthRejected => ConnectStep::Fail,
        ConnectOutcome::ConnectFailed => if attempt < max_attempts {
            ConnectStep::RetryAfterSleep
        } else {
            ConnectStep::Fail
        },
        ConnectOutcome::AuthErr => if attempt < max_attempts {
            ConnectStep::RetryAfterSleep
        } else {
            ConnectStep::Fail
        },
    }
}

/// Decide the connect loop's next step after one attempt.
pub fn connect_retry_decision(attempt: u64, max_attempts: u64, outcome: ConnectOutcome) -> (r:
    ConnectStep)
    ensures
        r == spec_connect_step(attempt, max_attempts, outcome),
{
    match outcome {
        ConnectOutcome::AuthOk => ConnectStep::Done,
        ConnectOutcome::AuthRejected => ConnectStep::Fail,
        ConnectOutcome::ConnectFailed => if attempt < max_attempts {
            ConnectStep::RetryAfterSleep
        } else {
            ConnectStep::Fail
        },
        ConnectOutcome::AuthErr => if attempt < max_attempts {
            ConnectStep::RetryAfterSleep
        } else {
            ConnectStep::Fail
        },
    }
}

/// The default format rules: context and author, then the quoted say
/// command, for both plain and reply messages; the media and sticker
/// markers.
pub fn default_format() -> (r: FormatsConfigs)
    ensures
        fcs_view(r.text@) == fcs_view_default_text(),
        fcs_view(r.reply@) == fcs_view_default_reply(),
        r.media@ == "[MEDIA] "@,
        r.sticker@ == "[STICKER] "@,
{
    FormatsConfigs {
        text: default_formats_text(),
        reply: default_formats_reply(),
        media: default_formats_media(),
        sticker: default_formats_sticker(),
    }
}

/// The default plain-text format steps' view.
pub open spec fn fcs_view_default_text() -> Seq<(Seq<char>, bool)> {
    seq![("{{2}}[{{from.username}}] {{0}}"@, true), ("say \"{{1}}\""@, false)]
}

/// The default reply format steps' view.
pub open spec fn fcs_view_default_reply() -> Seq<(Seq<char>, bool)> {
    seq![
        ("{{2}}[{{reply_to_message.message_id}}] [{{reply_to_message.from.username}}] {{0}}"@, true),
        ("say \"{{1}}\""@, false),
    ]
}

/// The default plain-text format steps.
pub fn default_formats_text() -> (r: Vec<FormatConfig>)
    ensures
        fcs_view(r@) == fcs_view_default_text(),
{
    let mut r: Vec<FormatConfig> = Vec::new();
    r.push(FormatConfig { format: "{{2}}[{{from.username}}] {{0}}".to_owned(), escape: true });
    r.push(FormatConfig { format: "say \"{{1}}\"".to_owned(), escape: false });
    proof {
        crate::writer::lemma_fcs_view_len(r@);
        crate::writer::lemma_fcs_view_index(r@, 0);
        crate::writer::lemma_fcs_view_index(r@, 1);
        assert(fcs_view(r@) =~= fcs_view_default_text());
    }
    r
}

/// The default reply format steps.
pub fn default_formats_reply() -> (r: Vec<FormatConfig>)
    ensures
        fcs_view(r@) == fcs_view_default_reply(),
{
    let mut r: Vec<FormatConfig> = Vec::new();
    r.push(
        FormatConfig {
            format: "{{2}}[{{reply_to_message.message_id}}] [{{reply_to_message.from.username}}] {{0}}".to_owned(),
            escape: true,
        },
    );
    r.push(FormatConfig { format: "say \"{{1}}\"".to_owned(), escape: false });
    proof {
        crate::writer::lemma_fcs_view_len(r@);
        crate::writer::lemma_fcs_view_index(r@, 0);
        crate::writer::lemma_fcs_view_index(r@, 1);
        assert(fcs_view(r@) =~= fcs_view_default_reply());
    }
    r
}

/// The default media marker.
pub fn default_formats_media() -> (r: String)
    ensures
        r@ == "[MEDIA] "@,
{
    "[MEDIA] ".to_owned()
}

/// The default sticker marker.
pub fn default_formats_sticker() -> (r: String)
    ensures
        r@ == "[STICKER] "@,
{
    "[STICKER] ".to_owned()
}

} // verus!
