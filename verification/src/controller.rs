//! Talking to the isolated core: addresses, configuration and readiness.

use crate::config::{
    ConfigView, entries, entry, flag_value, number_value, put, text_value, with_entry,
};
use crate::digits::{decimal, decimal_text};
use crate::models::text_view;
use crate::profile::lemma_with_entry;
use serde_yaml_ng::Mapping;
use vstd::prelude::*;
use vstd::utf8::encode_utf8;

verus! {

/// How often the core is asked whether it is ready.
pub const READY_ATTEMPTS: u32 = 40;

/// The hexadecimal digit of a number below sixteen, in capitals.
pub open spec fn capital_digit(value: int) -> char {
    if value < 10 {
        (48 + value) as u8 as char
    } else {
        (55 + value) as u8 as char
    }
}

/// Whether a byte is an ASCII letter or digit.
pub open spec fn alphanumeric(byte: u8) -> bool {
    (48 <= byte <= 57) || (65 <= byte <= 90) || (97 <= byte <= 122)
}

/// Bytes as a part of an address: letters and digits stand for themselves, every other byte is
/// written as a percent sign and two hexadecimal digits.
pub open spec fn percent_encoded(bytes: Seq<u8>) -> Seq<char>
    decreases bytes.len(),
{
    if bytes.len() == 0 {
        Seq::empty()
    } else {
        let byte = bytes.last();
        percent_encoded(bytes.drop_last()) + if alphanumeric(byte) {
            seq![byte as char]
        } else {
            seq!['%', capital_digit(byte as int / 16), capital_digit(byte as int % 16)]
        }
    }
}

/// `percent_encoding::utf8_percent_encode` with its set `NON_ALPHANUMERIC` keeps ASCII letters and
/// digits and escapes every other byte of the UTF-8 form.
#[verifier::external_body]
pub(crate) fn encode_component(text: &str) -> (encoded: String)
    ensures
        encoded@ == percent_encoded(encode_utf8(text@)),
{
    percent_encoding::utf8_percent_encode(text, percent_encoding::NON_ALPHANUMERIC).to_string()
}

/// The address of the control interface on a port.
pub fn controller_address(controller_port: u16) -> (address: String)
    ensures
        address@ == "127.0.0.1:"@ + decimal(controller_port as nat),
{
    "127.0.0.1:".to_owned().concat(decimal_text(controller_port as u64).as_str())
}

/// The address of the control interface for requests.
pub fn controller_url(controller_port: u16) -> (url: String)
    ensures
        url@ == "http://"@ + ("127.0.0.1:"@ + decimal(controller_port as nat)),
{
    "http://".to_owned().concat(controller_address(controller_port).as_str())
}

/// The address under which the control interface offers a proxy or a group.
pub fn proxy_endpoint(controller_url: &str, proxy_name: &str) -> (endpoint: String)
    ensures
        endpoint@ == controller_url@ + "/proxies/"@ + percent_encoded(encode_utf8(proxy_name@)),
{
    controller_url.to_owned().concat("/proxies/").concat(encode_component(proxy_name).as_str())
}

/// The configuration with which a core is started.
pub open spec fn running_config(
    config: Seq<(ConfigView, ConfigView)>,
    mixed_port: int,
    address: Seq<char>,
    secret: Seq<char>,
) -> Seq<(ConfigView, ConfigView)> {
    let listening = with_entry(config, "mixed-port"@, ConfigView::Number(mixed_port));
    let controlled = with_entry(listening, "external-controller"@, ConfigView::Text(address));
    let secured = with_entry(controlled, "secret"@, ConfigView::Text(secret));
    with_entry(secured, "unified-delay"@, ConfigView::Flag(true))
}

/// The configuration with which a core is started on the given ports.
pub fn runtime_config(config: &Mapping, mixed_port: u16, controller_port: u16, secret: &str) -> (result: Mapping)
    ensures
        entries(result) == running_config(
            entries(*config),
            mixed_port as int,
            "127.0.0.1:"@ + decimal(controller_port as nat),
            secret@,
        ),
{
    let mut result = config.clone();
    put(&mut result, "mixed-port", number_value(mixed_port));
    put(&mut result, "external-controller", text_value(controller_address(controller_port).as_str()));
    put(&mut result, "secret", text_value(secret));
    put(&mut result, "unified-delay", flag_value(true));
    result
}

/// The change of the configuration that sets the mode of the main core.
pub fn mode_patch(mode: &str) -> (patch: Mapping)
    ensures
        entries(patch) == seq![(ConfigView::Text("mode"@), ConfigView::Text(mode@))],
{
    let mut patch = Mapping::new();
    put(&mut patch, "mode", text_value(mode));
    assert(entries(patch) =~= seq![(ConfigView::Text("mode"@), ConfigView::Text(mode@))]);
    patch
}

/// What an attempt to reach a starting core came to.
#[derive(Debug)]
pub enum ReadyReply {
    /// The core answered with a status.
    Answered { status_code: u16, status_text: String },
    /// The core did not answer.
    Failed { message: String },
}

/// The attempts to reach a starting core.
#[derive(Debug)]
pub struct ReadyWatch {
    pub attempts: u32,
    pub last_error: Option<String>,
}

/// What to do after an attempt.
#[derive(Debug, Clone, Copy, PartialEq, Eq, Structural)]
pub enum ReadyStep {
    /// The core is ready.
    Ready,
    /// Wait 200 milliseconds and try again.
    Retry,
    /// The core did not come up in time.
    GiveUp,
}

impl ReadyReply {
    /// Whether the core is ready.
    pub open spec fn ready(self) -> bool {
        match self {
            ReadyReply::Answered { status_code, .. } => 200 <= status_code < 300,
            ReadyReply::Failed { .. } => false,
        }
    }

    /// Why the core is not ready.
    pub open spec fn complaint(self) -> Seq<char> {
        match self {
            ReadyReply::Answered { status_text, .. } => "控制接口状态码 "@ + status_text@,
            ReadyReply::Failed { message } => message@,
        }
    }
}

impl ReadyWatch {
    /// No attempt was made yet.
    pub fn new() -> (watch: ReadyWatch)
        ensures
            watch.attempts == 0,
            watch.last_error is None,
    {
        ReadyWatch { attempts: 0, last_error: None }
    }

    /// Takes note of an attempt and says what to do next.
    pub fn step(&mut self, reply: ReadyReply) -> (step: ReadyStep)
        requires
            old(self).attempts < READY_ATTEMPTS,
        ensures
            final(self).attempts == old(self).attempts + 1,
            text_view(final(self).last_error) == if reply.ready() {
                text_view(old(self).last_error)
            } else {
                Some(reply.complaint())
            },
            step == if reply.ready() {
                ReadyStep::Ready
            } else if final(self).attempts < READY_ATTEMPTS {
                ReadyStep::Retry
            } else {
                ReadyStep::GiveUp
            },
    {
        self.attempts = self.attempts + 1;
        match reply {
            ReadyReply::Answered { status_code, status_text } => {
                if 200 <= status_code && status_code < 300 {
                    return ReadyStep::Ready;
                }
                self.last_error = Some("控制接口状态码 ".to_owned().concat(status_text.as_str()));
            },
            ReadyReply::Failed { message } => {
                self.last_error = Some(message);
            },
        }
        if self.attempts < READY_ATTEMPTS {
            ReadyStep::Retry
        } else {
            ReadyStep::GiveUp
        }
    }
}

/// A started core differs from the configuration of its profile in four keys only.
pub proof fn law_running_config_keeps_the_rest(
    config: Seq<(ConfigView, ConfigView)>,
    mixed_port: int,
    address: Seq<char>,
    secret: Seq<char>,
    key: Seq<char>,
)
    requires
        key != "mixed-port"@,
        key != "external-controller"@,
        key != "secret"@,
        key != "unified-delay"@,
    ensures
        entry(running_config(config, mixed_port, address, secret), key)
            == entry(config, key),
{
    let listening = with_entry(config, "mixed-port"@, ConfigView::Number(mixed_port));
    let controlled = with_entry(listening, "external-controller"@, ConfigView::Text(address));
    let secured = with_entry(controlled, "secret"@, ConfigView::Text(secret));
    lemma_with_entry(config, "mixed-port"@, ConfigView::Number(mixed_port), key);
    lemma_with_entry(listening, "external-controller"@, ConfigView::Text(address), key);
    lemma_with_entry(controlled, "secret"@, ConfigView::Text(secret), key);
    lemma_with_entry(secured, "unified-delay"@, ConfigView::Flag(true), key);
}

} // verus!
