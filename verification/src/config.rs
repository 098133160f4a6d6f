//! Configuration of the gateway: defaults, trunks and environment overrides.

use vstd::prelude::*;

use crate::text;
use crate::trunk::config::ServerConfig;

verus! {

/// The whole configuration.
#[derive(Debug, Clone, PartialEq)]
pub struct Config {
    pub listen: ListenConfig,
    /// The single trunk, where `trunks` names none.
    pub sip: SipConfig,
    /// The trunks by name.
    pub trunks: Vec<TrunkConfig>,
    pub webhook: WebhookConfig,
    pub stream: StreamConfig,
    pub auth: AuthConfig,
    pub tls: TlsConfig,
    pub rate_limit: RateLimitConfig,
    /// The trunk host, if there is one.
    pub server: Option<ServerConfig>,
}

/// Where the HTTP server listens.
#[derive(Debug, Clone, PartialEq)]
pub struct ListenConfig {
    pub http: String,
}

/// An account with a SIP provider.
#[derive(Debug, PartialEq)]
pub struct SipConfig {
    pub username: String,
    pub password: String,
    pub host: String,
    pub transport: SipTransport,
    pub rtp_port_min: u16,
    pub rtp_port_max: u16,
    pub srtp: bool,
    pub stun_server: Option<String>,
}

/// A named trunk.
#[derive(Debug, PartialEq)]
pub struct TrunkConfig {
    pub name: String,
    pub sip: SipConfig,
}

/// What SIP is carried over.
#[derive(Debug, Clone, Copy, PartialEq, Eq, Structural)]
pub enum SipTransport {
    Udp,
    Tcp,
    Tls,
}

/// Where webhooks go, and how hard to try.
#[derive(Debug, Clone, PartialEq)]
pub struct WebhookConfig {
    pub url: String,
    pub timeout: String,
    pub retry: u32,
}

/// How audio is streamed.
#[derive(Debug, Clone, PartialEq)]
pub struct StreamConfig {
    pub mode: StreamMode,
    pub encoding: String,
    pub sample_rate: u32,
}

/// How audio frames travel over a WebSocket.
#[derive(Debug, Clone, Copy, PartialEq, Eq, Structural)]
pub enum StreamMode {
    /// As JSON with base64.
    Twilio,
    /// As binary frames.
    Native,
}

/// How samples are coded in JSON frames.
#[derive(Debug, Clone, Copy, PartialEq, Eq, Structural)]
pub enum AudioEncoding {
    Mulaw,
    L16,
}

/// The key that requests have to show, if any.
#[derive(Debug, Clone, PartialEq)]
pub struct AuthConfig {
    pub api_key: Option<String>,
}

/// The certificate and the key of the HTTP server, if it uses TLS.
#[derive(Debug, Clone, PartialEq)]
pub struct TlsConfig {
    pub cert: Option<String>,
    pub key: Option<String>,
}

/// How many requests a second are served, if there is a limit.
#[derive(Debug, Clone, PartialEq)]
pub struct RateLimitConfig {
    pub requests_per_second: Option<u32>,
}

/// What a configuration file is written in.
#[derive(Debug, Clone, Copy, PartialEq, Eq, Structural)]
pub enum ConfigFormat {
    Yaml,
    Toml,
}

/// Why an environment variable does not override anything.
#[derive(Debug, Clone, Copy, PartialEq, Eq, Structural)]
pub enum OverrideError {
    /// No field has this variable.
    UnknownVariable,
    /// The field does not take this value.
    InvalidValue,
}

// ── Models ──

#[verifier::ext_equal]
pub struct SipConfigView {
    pub username: Seq<char>,
    pub password: Seq<char>,
    pub host: Seq<char>,
    pub transport: SipTransport,
    pub rtp_port_min: u16,
    pub rtp_port_max: u16,
    pub srtp: bool,
    pub stun_server: Option<Seq<char>>,
}

/// The fields of a configuration that the environment can override.
#[verifier::ext_equal]
pub struct ConfigView {
    pub listen_http: Seq<char>,
    pub sip: SipConfigView,
    pub webhook_url: Seq<char>,
    pub webhook_timeout: Seq<char>,
    pub webhook_retry: u32,
    pub stream_mode: StreamMode,
    pub stream_encoding: Seq<char>,
    pub stream_sample_rate: u32,
    pub api_key: Option<Seq<char>>,
    pub tls_cert: Option<Seq<char>>,
    pub tls_key: Option<Seq<char>>,
    pub requests_per_second: Option<u32>,
}

impl View for SipConfig {
    type V = SipConfigView;

    open spec fn view(&self) -> SipConfigView {
        SipConfigView {
            username: self.username@,
            password: self.password@,
            host: self.host@,
            transport: self.transport,
            rtp_port_min: self.rtp_port_min,
            rtp_port_max: self.rtp_port_max,
            srtp: self.srtp,
            stun_server: text::text_option(self.stun_server),
        }
    }
}

impl View for TrunkConfig {
    type V = (Seq<char>, SipConfigView);

    open spec fn view(&self) -> (Seq<char>, SipConfigView) {
        (self.name@, self.sip@)
    }
}

impl View for Config {
    type V = ConfigView;

    open spec fn view(&self) -> ConfigView {
        ConfigView {
            listen_http: self.listen.http@,
            sip: self.sip@,
            webhook_url: self.webhook.url@,
            webhook_timeout: self.webhook.timeout@,
            webhook_retry: self.webhook.retry,
            stream_mode: self.stream.mode,
            stream_encoding: self.stream.encoding@,
            stream_sample_rate: self.stream.sample_rate,
            api_key: text::text_option(self.auth.api_key),
            tls_cert: text::text_option(self.tls.cert),
            tls_key: text::text_option(self.tls.key),
            requests_per_second: self.rate_limit.requests_per_second,
        }
    }
}

/// The text of a list of trunks.
pub open spec fn trunks_view(trunks: Seq<TrunkConfig>) -> Seq<(Seq<char>, SipConfigView)> {
    Seq::new(trunks.len(), |i: int| trunks[i]@)
}

/// The trunks to connect: the named ones, or else the single one under the name
/// `default` where its host is set.
pub open spec fn trunk_list(config: Config) -> Seq<(Seq<char>, SipConfigView)> {
    if config.trunks@.len() > 0 {
        trunks_view(config.trunks@)
    } else if config.sip@.host.len() > 0 {
        seq![("default"@, config.sip@)]
    } else {
        Seq::empty()
    }
}

pub open spec fn transport_named(name: Seq<char>) -> Option<SipTransport> {
    if name == "udp"@ {
        Some(SipTransport::Udp)
    } else if name == "tcp"@ {
        Some(SipTransport::Tcp)
    } else if name == "tls"@ {
        Some(SipTransport::Tls)
    } else {
        None
    }
}

pub open spec fn transport_text(transport: SipTransport) -> Seq<char> {
    match transport {
        SipTransport::Udp => "udp"@,
        SipTransport::Tcp => "tcp"@,
        SipTransport::Tls => "tls"@,
    }
}

pub open spec fn encoding_named(name: Seq<char>) -> Option<AudioEncoding> {
    if name == "audio/x-mulaw"@ {
        Some(AudioEncoding::Mulaw)
    } else if name == "audio/x-l16"@ {
        Some(AudioEncoding::L16)
    } else {
        None
    }
}

pub open spec fn encoding_text(encoding: AudioEncoding) -> Seq<char> {
    match encoding {
        AudioEncoding::Mulaw => "audio/x-mulaw"@,
        AudioEncoding::L16 => "audio/x-l16"@,
    }
}

pub open spec fn flag_named(name: Seq<char>) -> Option<bool> {
    if name == "true"@ {
        Some(true)
    } else if name == "false"@ {
        Some(false)
    } else {
        None
    }
}

/// The outcome of setting a field, where its value could be read.
pub open spec fn set_or_invalid(c: Option<ConfigView>) -> Result<ConfigView, OverrideError> {
    match c {
        Some(c) => Ok(c),
        None => Err(OverrideError::InvalidValue),
    }
}

/// The configuration with the field of an environment variable set to its value.
pub open spec fn overridden(c: ConfigView, name: Seq<char>, value: Seq<char>) -> Result<
    ConfigView,
    OverrideError,
> {
    if name == "XBRIDGE_LISTEN_HTTP"@ {
        Ok(ConfigView { listen_http: value, ..c })
    } else if name == "XBRIDGE_SIP_USERNAME"@ {
        Ok(ConfigView { sip: SipConfigView { username: value, ..c.sip }, ..c })
    } else if name == "XBRIDGE_SIP_PASSWORD"@ {
        Ok(ConfigView { sip: SipConfigView { password: value, ..c.sip }, ..c })
    } else if name == "XBRIDGE_SIP_HOST"@ {
        Ok(ConfigView { sip: SipConfigView { host: value, ..c.sip }, ..c })
    } else if name == "XBRIDGE_SIP_TRANSPORT"@ {
        set_or_invalid(
            match transport_named(value) {
                Some(transport) => Some(
                    ConfigView { sip: SipConfigView { transport, ..c.sip }, ..c },
                ),
                None => None,
            },
        )
    } else if name == "XBRIDGE_SIP_RTP_PORT_MIN"@ {
        set_or_invalid(
            match text::parse_decimal(value, u16::MAX as nat) {
                Some(n) => Some(
                    ConfigView { sip: SipConfigView { rtp_port_min: n as u16, ..c.sip }, ..c },
                ),
                None => None,
            },
        )
    } else if name == "XBRIDGE_SIP_RTP_PORT_MAX"@ {
        set_or_invalid(
            match text::parse_decimal(value, u16::MAX as nat) {
                Some(n) => Some(
                    ConfigView { sip: SipConfigView { rtp_port_max: n as u16, ..c.sip }, ..c },
                ),
                None => None,
            },
        )
    } else if name == "XBRIDGE_SIP_SRTP"@ {
        set_or_invalid(
            match flag_named(value) {
                Some(srtp) => Some(ConfigView { sip: SipConfigView { srtp, ..c.sip }, ..c }),
                None => None,
            },
        )
    } else if name == "XBRIDGE_SIP_STUN_SERVER"@ {
        Ok(ConfigView { sip: SipConfigView { stun_server: Some(value), ..c.sip }, ..c })
    } else if name == "XBRIDGE_WEBHOOK_URL"@ {
        Ok(ConfigView { webhook_url: value, ..c })
    } else if name == "XBRIDGE_WEBHOOK_TIMEOUT"@ {
        Ok(ConfigView { webhook_timeout: value, ..c })
    } else if name == "XBRIDGE_WEBHOOK_RETRY"@ {
        set_or_invalid(
            match text::parse_decimal(value, u32::MAX as nat) {
                Some(n) => Some(ConfigView { webhook_retry: n as u32, ..c }),
                None => None,
            },
        )
    } else if name == "XBRIDGE_STREAM_ENCODING"@ {
        set_or_invalid(
            match encoding_named(value) {
                Some(_) => Some(ConfigView { stream_encoding: value, ..c }),
                None => None,
            },
        )
    } else if name == "XBRIDGE_STREAM_SAMPLE_RATE"@ {
        set_or_invalid(
            match text::parse_decimal(value, u32::MAX as nat) {
                Some(n) => Some(ConfigView { stream_sample_rate: n as u32, ..c }),
                None => None,
            },
        )
    } else if name == "XBRIDGE_AUTH_API_KEY"@ {
        Ok(ConfigView { api_key: Some(value), ..c })
    } else if name == "XBRIDGE_RATE_LIMIT_RPS"@ {
        set_or_invalid(
            match text::parse_decimal(value, u32::MAX as nat) {
                Some(n) => Some(ConfigView { requests_per_second: Some(n as u32), ..c }),
                None => None,
            },
        )
    } else if name == "XBRIDGE_TLS_CERT"@ {
        Ok(ConfigView { tls_cert: Some(value), ..c })
    } else if name == "XBRIDGE_TLS_KEY"@ {
        Ok(ConfigView { tls_key: Some(value), ..c })
    } else {
        Err(OverrideError::UnknownVariable)
    }
}

/// What an override sets depends on the variable and its value alone, so of two of one
/// variable the last counts.
#[verifier::spinoff_prover]
#[verifier::rlimit(50)]
pub proof fn law_last_override_counts(
    c: ConfigView,
    name: Seq<char>,
    first: Seq<char>,
    last: Seq<char>,
)
    requires
        overridden(c, name, first) is Ok,
    ensures
        overridden(overridden(c, name, first)->Ok_0, name, last) == overridden(c, name, last),
{
}

// ── Defaults ──

pub fn default_transport() -> (res: SipTransport)
    ensures
        res == SipTransport::Udp,
{
    SipTransport::Udp
}

pub fn default_rtp_port_min() -> (res: u16)
    ensures
        res == 10000,
{
    10000
}

pub fn default_rtp_port_max() -> (res: u16)
    ensures
        res == 20000,
{
    20000
}

pub fn default_timeout() -> (res: String)
    ensures
        res@ == "5s"@,
{
    String::from_str("5s")
}

pub fn default_retry() -> (res: u32)
    ensures
        res == 1,
{
    1
}

pub fn default_stream_mode() -> (res: StreamMode)
    ensures
        res == StreamMode::Twilio,
{
    StreamMode::Twilio
}

pub fn default_encoding() -> (res: String)
    ensures
        res@ == "audio/x-mulaw"@,
{
    String::from_str("audio/x-mulaw")
}

pub fn default_sample_rate() -> (res: u32)
    ensures
        res == 8000,
{
    8000
}

impl Default for StreamConfig {
    fn default() -> (res: Self)
        ensures
            res.mode == StreamMode::Twilio,
            res.encoding@ == "audio/x-mulaw"@,
            res.sample_rate == 8000,
    {
        StreamConfig {
            mode: default_stream_mode(),
            encoding: default_encoding(),
            sample_rate: default_sample_rate(),
        }
    }
}

impl Default for SipConfig {
    fn default() -> (res: Self)
        ensures
            res@ == (SipConfigView {
                username: Seq::empty(),
                password: Seq::empty(),
                host: Seq::empty(),
                transport: SipTransport::Udp,
                rtp_port_min: 10000,
                rtp_port_max: 20000,
                srtp: false,
                stun_server: None,
            }),
    {
        let sip = SipConfig {
            username: String::new(),
            password: String::new(),
            host: String::new(),
            transport: default_transport(),
            rtp_port_min: default_rtp_port_min(),
            rtp_port_max: default_rtp_port_max(),
            srtp: false,
            stun_server: None,
        };
        assert(sip@.username =~= Seq::empty());
        assert(sip@.password =~= Seq::empty());
        assert(sip@.host =~= Seq::empty());
        sip
    }
}

impl Clone for SipConfig {
    fn clone(&self) -> (res: Self)
        ensures
            res@ == self@,
    {
        SipConfig {
            username: self.username.clone(),
            password: self.password.clone(),
            host: self.host.clone(),
            transport: self.transport,
            rtp_port_min: self.rtp_port_min,
            rtp_port_max: self.rtp_port_max,
            srtp: self.srtp,
            stun_server: text::copy_option(&self.stun_server),
        }
    }
}

impl Clone for TrunkConfig {
    fn clone(&self) -> (res: Self)
        ensures
            res@ == self@,
    {
        TrunkConfig { name: self.name.clone(), sip: self.sip.clone() }
    }
}

impl SipTransport {
    /// The transport's name.
    pub fn as_str(&self) -> (res: &'static str)
        ensures
            res@ == transport_text(*self),
    {
        match self {
            SipTransport::Udp => "udp",
            SipTransport::Tcp => "tcp",
            SipTransport::Tls => "tls",
        }
    }

    /// The transport of this name.
    pub fn from_name(name: &str) -> (res: Option<SipTransport>)
        ensures
            res == transport_named(name@),
    {
        if text::same_text(name, "udp") {
            Some(SipTransport::Udp)
        } else if text::same_text(name, "tcp") {
            Some(SipTransport::Tcp)
        } else if text::same_text(name, "tls") {
            Some(SipTransport::Tls)
        } else {
            None
        }
    }
}

impl AudioEncoding {
    /// The encoding's name.
    pub fn as_str(&self) -> (res: &'static str)
        ensures
            res@ == encoding_text(*self),
    {
        match self {
            AudioEncoding::Mulaw => "audio/x-mulaw",
            AudioEncoding::L16 => "audio/x-l16",
        }
    }

    /// The encoding of this name.
    pub fn from_name(name: &str) -> (res: Option<AudioEncoding>)
        ensures
            res == encoding_named(name@),
    {
        if text::same_text(name, "audio/x-mulaw") {
            Some(AudioEncoding::Mulaw)
        } else if text::same_text(name, "audio/x-l16") {
            Some(AudioEncoding::L16)
        } else {
            None
        }
    }
}

impl ConfigFormat {
    /// The format of a file: TOML where its name ends so, else YAML.
    pub fn of_path(path: &str) -> (res: ConfigFormat)
        ensures
            res == if text::ends_with(path@, ".toml"@) {
                ConfigFormat::Toml
            } else {
                ConfigFormat::Yaml
            },
    {
        if text::has_suffix(
            text::chars_of(path).as_slice(),
            text::chars_of(".toml").as_slice(),
        ) {
            ConfigFormat::Toml
        } else {
            ConfigFormat::Yaml
        }
    }
}

/// The flag that `true` or `false` names.
fn read_flag(name: &str) -> (res: Option<bool>)
    ensures
        res == flag_named(name@),
{
    if text::same_text(name, "true") {
        Some(true)
    } else if text::same_text(name, "false") {
        Some(false)
    } else {
        None
    }
}

fn read_number(value: &str, max: u64) -> (res: Option<u64>)
    ensures
        match res {
            Some(n) => text::parse_decimal(value@, max as nat) == Some(n as nat) && n <= max,
            None => text::parse_decimal(value@, max as nat) is None,
        },
{
    text::read_decimal(text::chars_of(value).as_slice(), max)
}

impl Config {
    /// The trunks to connect.
    pub fn resolved_trunks(&self) -> (res: Vec<TrunkConfig>)
        ensures
            trunks_view(res@) == trunk_list(*self),
    {
        let mut out: Vec<TrunkConfig> = Vec::new();
        if self.trunks.len() > 0 {
            let mut i: usize = 0;
            while i < self.trunks.len()
                invariant
                    i <= self.trunks@.len(),
                    out@.len() == i,
                    forall|j: int| 0 <= j < i ==> (#[trigger] out@[j])@ == self.trunks@[j]@,
                decreases self.trunks@.len() - i,
            {
                out.push(self.trunks[i].clone());
                i += 1;
            }
            assert(trunks_view(out@) =~= trunks_view(self.trunks@));
        } else if !self.sip.host.as_str().is_empty() {
            out.push(TrunkConfig { name: String::from_str("default"), sip: self.sip.clone() });
            assert(trunks_view(out@) =~= seq![("default"@, self.sip@)]);
        } else {
            assert(trunks_view(out@) =~= Seq::empty());
        }
        out
    }

    /// Sets the field of an environment variable. The trunks and the trunk host have no
    /// variables.
    pub fn apply_override(&mut self, name: &str, value: &str) -> (res: Result<(), OverrideError>)
        ensures
            match res {
                Ok(_) => overridden(old(self)@, name@, value@) == Ok::<ConfigView, OverrideError>(
                    final(self)@,
                ),
                Err(e) => overridden(old(self)@, name@, value@) == Err::<ConfigView, OverrideError>(
                    e,
                ) && final(self)@ == old(self)@,
            },
            final(self).trunks == old(self).trunks,
            final(self).server == old(self).server,
    {
        if text::same_text(name, "XBRIDGE_LISTEN_HTTP") {
            self.listen.http = value.to_owned();
        } else if text::same_text(name, "XBRIDGE_SIP_USERNAME") {
            self.sip.username = value.to_owned();
        } else if text::same_text(name, "XBRIDGE_SIP_PASSWORD") {
            self.sip.password = value.to_owned();
        } else if text::same_text(name, "XBRIDGE_SIP_HOST") {
            self.sip.host = value.to_owned();
        } else if text::same_text(name, "XBRIDGE_SIP_TRANSPORT") {
            match SipTransport::from_name(value) {
                Some(transport) => self.sip.transport = transport,
                None => return Err(OverrideError::InvalidValue),
            }
        } else if text::same_text(name, "XBRIDGE_SIP_RTP_PORT_MIN") {
            match read_number(value, u16::MAX as u64) {
                Some(n) => self.sip.rtp_port_min = n as u16,
                None => return Err(OverrideError::InvalidValue),
            }
        } else if text::same_text(name, "XBRIDGE_SIP_RTP_PORT_MAX") {
            match read_number(value, u16::MAX as u64) {
                Some(n) => self.sip.rtp_port_max = n as u16,
                None => return Err(OverrideError::InvalidValue),
            }
        } else if text::same_text(name, "XBRIDGE_SIP_SRTP") {
            match read_flag(value) {
                Some(srtp) => self.sip.srtp = srtp,
                None => return Err(OverrideError::InvalidValue),
            }
        } else if text::same_text(name, "XBRIDGE_SIP_STUN_SERVER") {
            self.sip.stun_server = Some(value.to_owned());
        } else if text::same_text(name, "XBRIDGE_WEBHOOK_URL") {
            self.webhook.url = value.to_owned();
        } else if text::same_text(name, "XBRIDGE_WEBHOOK_TIMEOUT") {
            self.webhook.timeout = value.to_owned();
        } else if text::same_text(name, "XBRIDGE_WEBHOOK_RETRY") {
            match read_number(value, u32::MAX as u64) {
                Some(n) => self.webhook.retry = n as u32,
                None => return Err(OverrideError::InvalidValue),
            }
        } else if text::same_text(name, "XBRIDGE_STREAM_ENCODING") {
            match AudioEncoding::from_name(value) {
                Some(_) => self.stream.encoding = value.to_owned(),
                None => return Err(OverrideError::InvalidValue),
            }
        } else if text::same_text(name, "XBRIDGE_STREAM_SAMPLE_RATE") {
            match read_number(value, u32::MAX as u64) {
                Some(n) => self.stream.sample_rate = n as u32,
                None => return Err(OverrideError::InvalidValue),
            }
        } else if text::same_text(name, "XBRIDGE_AUTH_API_KEY") {
            self.auth.api_key = Some(value.to_owned());
        } else if text::same_text(name, "XBRIDGE_RATE_LIMIT_RPS") {
            match read_number(value, u32::MAX as u64) {
                Some(n) => self.rate_limit.requests_per_second = Some(n as u32),
                None => return Err(OverrideError::InvalidValue),
            }
        } else if text::same_text(name, "XBRIDGE_TLS_CERT") {
            self.tls.cert = Some(value.to_owned());
        } else if text::same_text(name, "XBRIDGE_TLS_KEY") {
            self.tls.key = Some(value.to_owned());
        } else {
            return Err(OverrideError::UnknownVariable);
        }
        Ok(())
    }
}

pub open spec fn mode_text(mode: StreamMode) -> Seq<char> {
    match mode {
        StreamMode::Twilio => "twilio"@,
        StreamMode::Native => "native"@,
    }
}

pub open spec fn mode_named(name: Seq<char>) -> Option<StreamMode> {
    if name == "twilio"@ {
        Some(StreamMode::Twilio)
    } else if name == "native"@ {
        Some(StreamMode::Native)
    } else {
        None
    }
}

impl StreamMode {
    /// The mode's name.
    pub fn as_str(&self) -> (res: &'static str)
        ensures
            res@ == mode_text(*self),
    {
        match self {
            StreamMode::Twilio => "twilio",
            StreamMode::Native => "native",
        }
    }

    /// The mode of this name.
    pub fn from_name(name: &str) -> (res: Option<StreamMode>)
        ensures
            res == mode_named(name@),
    {
        if text::same_text(name, "twilio") {
            Some(StreamMode::Twilio)
        } else if text::same_text(name, "native") {
            Some(StreamMode::Native)
        } else {
            None
        }
    }
}

/// A mode is read back from its name.
pub proof fn law_mode_names(mode: StreamMode)
    ensures
        mode_named(mode_text(mode)) == Some(mode),
{
    reveal_strlit("twilio");
    reveal_strlit("native");
    assert("twilio"@[0] != "native"@[0]);
}

/// A transport is read back from its name.
pub proof fn law_transport_names(transport: SipTransport)
    ensures
        transport_named(transport_text(transport)) == Some(transport),
{
    reveal_strlit("udp");
    reveal_strlit("tcp");
    reveal_strlit("tls");
    assert("udp"@[0] != "tcp"@[0] && "udp"@[0] != "tls"@[0]);
    assert("tcp"@[1] != "tls"@[1]);
}

/// An encoding is read back from its name.
pub proof fn law_encoding_names(encoding: AudioEncoding)
    ensures
        encoding_named(encoding_text(encoding)) == Some(encoding),
{
    reveal_strlit("audio/x-mulaw");
    reveal_strlit("audio/x-l16");
    assert("audio/x-mulaw"@.len() != "audio/x-l16"@.len());
}

/// The names of the modes.
pub proof fn law_mode_texts()
    ensures
        mode_text(StreamMode::Twilio) == seq!['t', 'w', 'i', 'l', 'i', 'o'],
        mode_text(StreamMode::Native) == seq!['n', 'a', 't', 'i', 'v', 'e'],
{
    reveal_strlit("twilio");
    reveal_strlit("native");
}

/// The names of the transports.
pub proof fn law_transport_texts()
    ensures
        transport_text(SipTransport::Udp) == seq!['u', 'd', 'p'],
        transport_text(SipTransport::Tcp) == seq!['t', 'c', 'p'],
        transport_text(SipTransport::Tls) == seq!['t', 'l', 's'],
{
    reveal_strlit("udp");
    reveal_strlit("tcp");
    reveal_strlit("tls");
}

/// The names of the encodings.
pub proof fn law_encoding_texts()
    ensures
        encoding_text(AudioEncoding::Mulaw) == seq!['a', 'u', 'd', 'i', 'o', '/', 'x', '-', 'm', 'u', 'l', 'a', 'w'],
        encoding_text(AudioEncoding::L16) == seq!['a', 'u', 'd', 'i', 'o', '/', 'x', '-', 'l', '1', '6'],
{
    reveal_strlit("audio/x-mulaw");
    reveal_strlit("audio/x-l16");
}

/// A name that is read is the name of what it is read as: no other text is read.
pub proof fn law_names_read(name: Seq<char>)
    ensures
        mode_named(name) matches Some(mode) ==> name == mode_text(mode),
        transport_named(name) matches Some(transport) ==> name == transport_text(transport),
        encoding_named(name) matches Some(encoding) ==> name == encoding_text(encoding),
        flag_named(name) == Some(true) <==> name == seq!['t', 'r', 'u', 'e'],
        flag_named(name) == Some(false) <==> name == seq!['f', 'a', 'l', 's', 'e'],
{
    reveal_strlit("true");
    reveal_strlit("false");
    assert("true"@ =~= seq!['t', 'r', 'u', 'e']);
    assert("false"@ =~= seq!['f', 'a', 'l', 's', 'e']);
    assert("true"@.len() != "false"@.len());
}

/// The trunks to connect are those that are configured, in their order and as they are.
/// Without any it is the one under the name `default`, as long as it has a host.
pub proof fn law_trunks(config: Config, i: int)
    ensures
        config.trunks@.len() > 0 ==> {
            &&& trunk_list(config).len() == config.trunks@.len()
            &&& 0 <= i < config.trunks@.len() ==> trunk_list(config)[i] == (
                config.trunks@[i].name@,
                config.trunks@[i].sip@,
            )
        },
        config.trunks@.len() == 0 && config.sip.host@.len() > 0 ==> trunk_list(config) == seq![
            (seq!['d', 'e', 'f', 'a', 'u', 'l', 't'], config.sip@),
        ],
        config.trunks@.len() == 0 && config.sip.host@.len() == 0 ==> trunk_list(config).len() == 0,
{
    reveal_strlit("default");
    assert("default"@ =~= seq!['d', 'e', 'f', 'a', 'u', 'l', 't']);
}

/// The names of the variables differ.
proof fn lemma_variables()
    ensures
        "XBRIDGE_LISTEN_HTTP"@.len() == 19,
        "XBRIDGE_LISTEN_HTTP"@[8] == 'L',
        "XBRIDGE_SIP_USERNAME"@.len() == 20,
        "XBRIDGE_SIP_USERNAME"@[8] == 'S',
        "XBRIDGE_SIP_USERNAME"@[12] == 'U',
        "XBRIDGE_SIP_PASSWORD"@.len() == 20,
        "XBRIDGE_SIP_PASSWORD"@[8] == 'S',
        "XBRIDGE_SIP_PASSWORD"@[12] == 'P',
        "XBRIDGE_SIP_HOST"@.len() == 16,
        "XBRIDGE_SIP_HOST"@[8] == 'S',
        "XBRIDGE_SIP_HOST"@[12] == 'H',
        "XBRIDGE_SIP_TRANSPORT"@.len() == 21,
        "XBRIDGE_SIP_TRANSPORT"@[8] == 'S',
        "XBRIDGE_SIP_RTP_PORT_MIN"@.len() == 24,
        "XBRIDGE_SIP_RTP_PORT_MIN"@[22] == 'I',
        "XBRIDGE_SIP_RTP_PORT_MAX"@.len() == 24,
        "XBRIDGE_SIP_RTP_PORT_MAX"@[22] == 'A',
        "XBRIDGE_SIP_SRTP"@.len() == 16,
        "XBRIDGE_SIP_SRTP"@[8] == 'S',
        "XBRIDGE_SIP_SRTP"@[12] == 'S',
        "XBRIDGE_SIP_STUN_SERVER"@.len() == 23,
        "XBRIDGE_SIP_STUN_SERVER"@[8] == 'S',
        "XBRIDGE_SIP_STUN_SERVER"@[9] == 'I',
        "XBRIDGE_WEBHOOK_URL"@.len() == 19,
        "XBRIDGE_WEBHOOK_URL"@[8] == 'W',
        "XBRIDGE_WEBHOOK_TIMEOUT"@.len() == 23,
        "XBRIDGE_WEBHOOK_TIMEOUT"@[8] == 'W',
        "XBRIDGE_WEBHOOK_RETRY"@.len() == 21,
        "XBRIDGE_WEBHOOK_RETRY"@[8] == 'W',
        "XBRIDGE_STREAM_ENCODING"@.len() == 23,
        "XBRIDGE_STREAM_ENCODING"@[8] == 'S',
        "XBRIDGE_STREAM_ENCODING"@[9] == 'T',
        "XBRIDGE_STREAM_SAMPLE_RATE"@.len() == 26,
        "XBRIDGE_AUTH_API_KEY"@.len() == 20,
        "XBRIDGE_AUTH_API_KEY"@[8] == 'A',
        "XBRIDGE_RATE_LIMIT_RPS"@.len() == 22,
        "XBRIDGE_TLS_CERT"@.len() == 16,
        "XBRIDGE_TLS_CERT"@[8] == 'T',
        "XBRIDGE_TLS_KEY"@.len() == 15,
{
    reveal_strlit("XBRIDGE_LISTEN_HTTP");
    reveal_strlit("XBRIDGE_SIP_USERNAME");
    reveal_strlit("XBRIDGE_SIP_PASSWORD");
    reveal_strlit("XBRIDGE_SIP_HOST");
    reveal_strlit("XBRIDGE_SIP_TRANSPORT");
    reveal_strlit("XBRIDGE_SIP_RTP_PORT_MIN");
    reveal_strlit("XBRIDGE_SIP_RTP_PORT_MAX");
    reveal_strlit("XBRIDGE_SIP_SRTP");
    reveal_strlit("XBRIDGE_SIP_STUN_SERVER");
    reveal_strlit("XBRIDGE_WEBHOOK_URL");
    reveal_strlit("XBRIDGE_WEBHOOK_TIMEOUT");
    reveal_strlit("XBRIDGE_WEBHOOK_RETRY");
    reveal_strlit("XBRIDGE_STREAM_ENCODING");
    reveal_strlit("XBRIDGE_STREAM_SAMPLE_RATE");
    reveal_strlit("XBRIDGE_AUTH_API_KEY");
    reveal_strlit("XBRIDGE_RATE_LIMIT_RPS");
    reveal_strlit("XBRIDGE_TLS_CERT");
    reveal_strlit("XBRIDGE_TLS_KEY");
}

/// A variable for text sets its own field to the value as it is, whatever that holds, and
/// nothing else.
pub proof fn law_text_overrides(c: ConfigView, value: Seq<char>)
    ensures
        overridden(c, "XBRIDGE_LISTEN_HTTP"@, value) == Ok::<ConfigView, OverrideError>(
            ConfigView { listen_http: value, ..c },
        ),
        overridden(c, "XBRIDGE_SIP_USERNAME"@, value) == Ok::<ConfigView, OverrideError>(
            ConfigView { sip: SipConfigView { username: value, ..c.sip }, ..c },
        ),
        overridden(c, "XBRIDGE_SIP_PASSWORD"@, value) == Ok::<ConfigView, OverrideError>(
            ConfigView { sip: SipConfigView { password: value, ..c.sip }, ..c },
        ),
        overridden(c, "XBRIDGE_SIP_HOST"@, value) == Ok::<ConfigView, OverrideError>(
            ConfigView { sip: SipConfigView { host: value, ..c.sip }, ..c },
        ),
        overridden(c, "XBRIDGE_SIP_STUN_SERVER"@, value) == Ok::<ConfigView, OverrideError>(
            ConfigView { sip: SipConfigView { stun_server: Some(value), ..c.sip }, ..c },
        ),
        overridden(c, "XBRIDGE_WEBHOOK_URL"@, value) == Ok::<ConfigView, OverrideError>(
            ConfigView { webhook_url: value, ..c },
        ),
        overridden(c, "XBRIDGE_WEBHOOK_TIMEOUT"@, value) == Ok::<ConfigView, OverrideError>(
            ConfigView { webhook_timeout: value, ..c },
        ),
        overridden(c, "XBRIDGE_AUTH_API_KEY"@, value) == Ok::<ConfigView, OverrideError>(
            ConfigView { api_key: Some(value), ..c },
        ),
        overridden(c, "XBRIDGE_TLS_CERT"@, value) == Ok::<ConfigView, OverrideError>(
            ConfigView { tls_cert: Some(value), ..c },
        ),
        overridden(c, "XBRIDGE_TLS_KEY"@, value) == Ok::<ConfigView, OverrideError>(
            ConfigView { tls_key: Some(value), ..c },
        ),
{
    lemma_variables();
}

/// A variable for a number sets its own field to the number, and nothing else, as far as the
/// field holds it; what is no number, or too large, is refused.
pub proof fn law_number_overrides(c: ConfigView, n: nat, value: Seq<char>)
    ensures
        overridden(c, "XBRIDGE_SIP_RTP_PORT_MIN"@, text::decimal(n)) == if n <= u16::MAX {
            Ok::<ConfigView, OverrideError>(ConfigView { sip: SipConfigView { rtp_port_min: n as u16, ..c.sip }, ..c })
        } else {
            Err::<ConfigView, OverrideError>(OverrideError::InvalidValue)
        },
        text::parse_decimal(value, u16::MAX as nat) is None ==> overridden(
            c,
            "XBRIDGE_SIP_RTP_PORT_MIN"@,
            value,
        ) == Err::<ConfigView, OverrideError>(OverrideError::InvalidValue),
        overridden(c, "XBRIDGE_SIP_RTP_PORT_MAX"@, text::decimal(n)) == if n <= u16::MAX {
            Ok::<ConfigView, OverrideError>(ConfigView { sip: SipConfigView { rtp_port_max: n as u16, ..c.sip }, ..c })
        } else {
            Err::<ConfigView, OverrideError>(OverrideError::InvalidValue)
        },
        text::parse_decimal(value, u16::MAX as nat) is None ==> overridden(
            c,
            "XBRIDGE_SIP_RTP_PORT_MAX"@,
            value,
        ) == Err::<ConfigView, OverrideError>(OverrideError::InvalidValue),
        overridden(c, "XBRIDGE_WEBHOOK_RETRY"@, text::decimal(n)) == if n <= u32::MAX {
            Ok::<ConfigView, OverrideError>(ConfigView { webhook_retry: n as u32, ..c })
        } else {
            Err::<ConfigView, OverrideError>(OverrideError::InvalidValue)
        },
        text::parse_decimal(value, u32::MAX as nat) is None ==> overridden(
            c,
            "XBRIDGE_WEBHOOK_RETRY"@,
            value,
        ) == Err::<ConfigView, OverrideError>(OverrideError::InvalidValue),
        overridden(c, "XBRIDGE_STREAM_SAMPLE_RATE"@, text::decimal(n)) == if n <= u32::MAX {
            Ok::<ConfigView, OverrideError>(ConfigView { stream_sample_rate: n as u32, ..c })
        } else {
            Err::<ConfigView, OverrideError>(OverrideError::InvalidValue)
        },
        text::parse_decimal(value, u32::MAX as nat) is None ==> overridden(
            c,
            "XBRIDGE_STREAM_SAMPLE_RATE"@,
            value,
        ) == Err::<ConfigView, OverrideError>(OverrideError::InvalidValue),
        overridden(c, "XBRIDGE_RATE_LIMIT_RPS"@, text::decimal(n)) == if n <= u32::MAX {
            Ok::<ConfigView, OverrideError>(ConfigView { requests_per_second: Some(n as u32), ..c })
        } else {
            Err::<ConfigView, OverrideError>(OverrideError::InvalidValue)
        },
        text::parse_decimal(value, u32::MAX as nat) is None ==> overridden(
            c,
            "XBRIDGE_RATE_LIMIT_RPS"@,
            value,
        ) == Err::<ConfigView, OverrideError>(OverrideError::InvalidValue),
{
    lemma_variables();
    text::law_decimal_read(n, u16::MAX as nat, value, 0);
    text::law_decimal_read(n, u32::MAX as nat, value, 0);
}

/// A variable for one of several names sets its own field, and nothing else; another name is
/// refused.
pub proof fn law_named_overrides(c: ConfigView, value: Seq<char>)
    ensures
        overridden(c, "XBRIDGE_SIP_TRANSPORT"@, value) == match transport_named(value) {
            Some(transport) => Ok::<ConfigView, OverrideError>(
                ConfigView { sip: SipConfigView { transport, ..c.sip }, ..c },
            ),
            None => Err::<ConfigView, OverrideError>(OverrideError::InvalidValue),
        },
        overridden(c, "XBRIDGE_SIP_SRTP"@, value) == match flag_named(value) {
            Some(srtp) => Ok::<ConfigView, OverrideError>(
                ConfigView { sip: SipConfigView { srtp, ..c.sip }, ..c },
            ),
            None => Err::<ConfigView, OverrideError>(OverrideError::InvalidValue),
        },
        overridden(c, "XBRIDGE_STREAM_ENCODING"@, value) == match encoding_named(value) {
            Some(_) => Ok::<ConfigView, OverrideError>(
                ConfigView { stream_encoding: value, ..c },
            ),
            None => Err::<ConfigView, OverrideError>(OverrideError::InvalidValue),
        },
{
    lemma_variables();
}

/// A variable of any other name is unknown, whatever its value.
pub proof fn law_unknown_override(c: ConfigView, name: Seq<char>, value: Seq<char>)
    requires
        name != "XBRIDGE_LISTEN_HTTP"@,
        name != "XBRIDGE_SIP_USERNAME"@,
        name != "XBRIDGE_SIP_PASSWORD"@,
        name != "XBRIDGE_SIP_HOST"@,
        name != "XBRIDGE_SIP_TRANSPORT"@,
        name != "XBRIDGE_SIP_RTP_PORT_MIN"@,
        name != "XBRIDGE_SIP_RTP_PORT_MAX"@,
        name != "XBRIDGE_SIP_SRTP"@,
        name != "XBRIDGE_SIP_STUN_SERVER"@,
        name != "XBRIDGE_WEBHOOK_URL"@,
        name != "XBRIDGE_WEBHOOK_TIMEOUT"@,
        name != "XBRIDGE_WEBHOOK_RETRY"@,
        name != "XBRIDGE_STREAM_ENCODING"@,
        name != "XBRIDGE_STREAM_SAMPLE_RATE"@,
        name != "XBRIDGE_AUTH_API_KEY"@,
        name != "XBRIDGE_RATE_LIMIT_RPS"@,
        name != "XBRIDGE_TLS_CERT"@,
        name != "XBRIDGE_TLS_KEY"@,
    ensures
        overridden(c, name, value) == Err::<ConfigView, OverrideError>(
            OverrideError::UnknownVariable,
        ),
{
}

} // verus!
