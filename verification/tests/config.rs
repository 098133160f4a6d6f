use xbridge::config::{
    default_encoding, default_retry, default_rtp_port_max, default_rtp_port_min,
    default_sample_rate, default_stream_mode, default_timeout, default_transport, AudioEncoding,
    AuthConfig, Config, ConfigFormat, ListenConfig, OverrideError, RateLimitConfig, SipConfig, SipTransport,
    StreamConfig, StreamMode, TlsConfig, TrunkConfig, WebhookConfig,
};
use xbridge::trunk::config::{default_sip_port, PeerAuthConfig, PeerConfig, ServerConfig};

fn minimal_config() -> Config {
    Config {
        listen: ListenConfig {
            http: "0.0.0.0:8080".into(),
        },
        sip: SipConfig {
            username: "1001".into(),
            password: "secret".into(),
            host: "sip.telnyx.com".into(),
            ..SipConfig::default()
        },
        trunks: Vec::new(),
        webhook: WebhookConfig {
            url: "https://your-app.com/events".into(),
            timeout: default_timeout(),
            retry: default_retry(),
        },
        stream: StreamConfig::default(),
        auth: AuthConfig { api_key: None },
        tls: TlsConfig {
            cert: None,
            key: None,
        },
        rate_limit: RateLimitConfig {
            requests_per_second: None,
        },
        server: None,
    }
}

#[test]
fn minimal_config_uses_defaults() {
    let config = minimal_config();
    assert_eq!(config.sip.transport, SipTransport::Udp);
    assert_eq!(config.sip.rtp_port_min, 10000);
    assert_eq!(config.sip.rtp_port_max, 20000);
    assert!(!config.sip.srtp);
    assert_eq!(config.sip.stun_server, None);
    assert_eq!(config.webhook.timeout, "5s");
    assert_eq!(config.webhook.retry, 1);
    assert_eq!(config.stream.mode, StreamMode::Twilio);
    assert_eq!(config.stream.encoding, "audio/x-mulaw");
    assert_eq!(config.stream.sample_rate, 8000);
    assert_eq!(default_transport(), SipTransport::Udp);
    assert_eq!((default_rtp_port_min(), default_rtp_port_max()), (10000, 20000));
    assert_eq!(default_stream_mode(), StreamMode::Twilio);
    assert_eq!(default_encoding(), "audio/x-mulaw");
    assert_eq!(default_sample_rate(), 8000);
    assert_eq!(default_sip_port(), 5060);
}

#[test]
fn sip_transport_variants() {
    for (name, expected) in [
        ("udp", SipTransport::Udp),
        ("tcp", SipTransport::Tcp),
        ("tls", SipTransport::Tls),
    ] {
        assert_eq!(SipTransport::from_name(name), Some(expected));
        assert_eq!(expected.as_str(), name);
    }
    assert_eq!(SipTransport::from_name("UDP"), None);
}

#[test]
fn stream_mode_variants() {
    for (name, expected) in [
        ("twilio", StreamMode::Twilio),
        ("native", StreamMode::Native),
    ] {
        assert_eq!(StreamMode::from_name(name), Some(expected));
        assert_eq!(expected.as_str(), name);
    }
    assert_eq!(StreamMode::from_name("binary"), None);
}

#[test]
fn audio_encoding_variants() {
    for (name, expected) in [
        ("audio/x-mulaw", AudioEncoding::Mulaw),
        ("audio/x-l16", AudioEncoding::L16),
    ] {
        assert_eq!(AudioEncoding::from_name(name), Some(expected));
        assert_eq!(expected.as_str(), name);
    }
    assert_eq!(AudioEncoding::from_name("audio/opus"), None);
}

#[test]
fn single_trunk_is_the_default_one() {
    let config = minimal_config();
    assert_eq!(
        config.resolved_trunks(),
        vec![TrunkConfig {
            name: "default".into(),
            sip: config.sip.clone(),
        }]
    );
}

#[test]
fn named_trunks_replace_the_single_one() {
    let mut config = minimal_config();
    let trunk = |name: &str| TrunkConfig {
        name: name.into(),
        sip: SipConfig {
            host: format!("{name}.example.com"),
            ..SipConfig::default()
        },
    };
    config.trunks = vec![trunk("primary"), trunk("backup")];
    assert_eq!(
        config.resolved_trunks(),
        vec![trunk("primary"), trunk("backup")]
    );
}

#[test]
fn no_trunk_without_a_host() {
    let mut config = minimal_config();
    config.sip.host = String::new();
    assert!(config.resolved_trunks().is_empty());
}

#[test]
fn environment_overrides_every_field() {
    let mut config = minimal_config();
    for (name, value) in [
        ("XBRIDGE_LISTEN_HTTP", "127.0.0.1:9"),
        ("XBRIDGE_SIP_USERNAME", "u"),
        ("XBRIDGE_SIP_PASSWORD", "p"),
        ("XBRIDGE_SIP_HOST", "h"),
        ("XBRIDGE_SIP_TRANSPORT", "tls"),
        ("XBRIDGE_SIP_RTP_PORT_MIN", "65534"),
        ("XBRIDGE_SIP_RTP_PORT_MAX", "65535"),
        ("XBRIDGE_SIP_SRTP", "true"),
        ("XBRIDGE_SIP_STUN_SERVER", "stun"),
        ("XBRIDGE_WEBHOOK_URL", "http://w"),
        ("XBRIDGE_WEBHOOK_TIMEOUT", "9s"),
        ("XBRIDGE_WEBHOOK_RETRY", "4"),
        ("XBRIDGE_STREAM_ENCODING", "audio/x-l16"),
        ("XBRIDGE_STREAM_SAMPLE_RATE", "16000"),
        ("XBRIDGE_AUTH_API_KEY", "k"),
        ("XBRIDGE_RATE_LIMIT_RPS", "50"),
        ("XBRIDGE_TLS_CERT", "c.pem"),
        ("XBRIDGE_TLS_KEY", "k.pem"),
    ] {
        assert_eq!(config.apply_override(name, value), Ok(()), "{name}");
    }
    assert_eq!(
        config,
        Config {
            listen: ListenConfig {
                http: "127.0.0.1:9".into(),
            },
            sip: SipConfig {
                username: "u".into(),
                password: "p".into(),
                host: "h".into(),
                transport: SipTransport::Tls,
                rtp_port_min: 65534,
                rtp_port_max: 65535,
                srtp: true,
                stun_server: Some("stun".into()),
            },
            trunks: Vec::new(),
            webhook: WebhookConfig {
                url: "http://w".into(),
                timeout: "9s".into(),
                retry: 4,
            },
            stream: StreamConfig {
                mode: StreamMode::Twilio,
                encoding: "audio/x-l16".into(),
                sample_rate: 16000,
            },
            auth: AuthConfig {
                api_key: Some("k".into()),
            },
            tls: TlsConfig {
                cert: Some("c.pem".into()),
                key: Some("k.pem".into()),
            },
            rate_limit: RateLimitConfig {
                requests_per_second: Some(50),
            },
            server: None,
        }
    );
}

#[test]
fn environment_values_have_to_fit() {
    let mut config = minimal_config();
    for (name, value) in [
        ("XBRIDGE_SIP_TRANSPORT", "sctp"),
        ("XBRIDGE_SIP_RTP_PORT_MIN", "65536"),
        ("XBRIDGE_SIP_RTP_PORT_MAX", "-1"),
        ("XBRIDGE_SIP_SRTP", "yes"),
        ("XBRIDGE_WEBHOOK_RETRY", "4294967296"),
        ("XBRIDGE_STREAM_ENCODING", "mulaw"),
        ("XBRIDGE_STREAM_SAMPLE_RATE", ""),
        ("XBRIDGE_RATE_LIMIT_RPS", "fast"),
    ] {
        assert_eq!(
            config.apply_override(name, value),
            Err(OverrideError::InvalidValue),
            "{name}"
        );
    }
    assert_eq!(
        config.apply_override("XBRIDGE_NOTHING", "1"),
        Err(OverrideError::UnknownVariable)
    );
    assert_eq!(config, minimal_config());
}

#[test]
fn last_override_counts() {
    let mut config = minimal_config();
    config.apply_override("XBRIDGE_SIP_HOST", "first").unwrap();
    config.apply_override("XBRIDGE_SIP_HOST", "last").unwrap();
    let mut expected = minimal_config();
    expected.sip.host = "last".into();
    assert_eq!(config, expected);
}

#[test]
fn peers_are_found_by_name() {
    let auth = PeerAuthConfig::new("user", "pass");
    assert_eq!(auth.username, "user");
    assert_eq!(auth.password, "pass");
    let peer = |name: &str, port: u16| PeerConfig {
        name: name.into(),
        host: if port == 1 {
            None
        } else {
            Some("10.0.0.2".into())
        },
        hosts: Vec::new(),
        port,
        auth: Some(PeerAuthConfig::new("user", "pass")),
        codecs: Vec::new(),
        rtp_address: None,
    };
    let server = ServerConfig {
        listen: "0.0.0.0:5080".into(),
        peers: vec![peer("a", 1), peer("b", 2), peer("b", 3)],
        rtp_port_min: 0,
        rtp_port_max: 0,
        rtp_address: None,
    };
    assert_eq!(server.peer("b").map(|p| p.port), Some(2));
    assert!(server.peer("c").is_none());
    assert_eq!(server.peer_at("10.0.0.2").map(|p| p.port), Some(2));
    assert!(server.peer_at("10.0.0.1").is_none());
}

fn peer_known_by(name: &str, host: Option<&str>, hosts: &[&str]) -> PeerConfig {
    PeerConfig {
        name: name.into(),
        host: host.map(String::from),
        hosts: hosts.iter().map(|h| h.to_string()).collect(),
        port: 5060,
        auth: None,
        codecs: Vec::new(),
        rtp_address: None,
    }
}

#[test]
fn peers_are_known_by_addresses_and_ranges() {
    let server = ServerConfig {
        listen: "0.0.0.0:5080".into(),
        peers: vec![
            peer_known_by("pbx", Some("192.168.1.10"), &[]),
            peer_known_by("carrier", None, &["54.172.60.0/30", "34.203.250.7"]),
            peer_known_by("wide", Some("10.0.0.1"), &["54.172.60.0/24", "2001:db8::/32"]),
            peer_known_by("registered", None, &[]),
        ],
        rtp_port_min: 0,
        rtp_port_max: 0,
        rtp_address: None,
    };
    let named = |ip: &str| server.peer_at(ip).map(|p| p.name.clone());
    assert_eq!(named("192.168.1.10"), Some("pbx".into()));
    assert_eq!(named("54.172.60.3"), Some("carrier".into()));
    assert_eq!(named("34.203.250.7"), Some("carrier".into()));
    assert_eq!(named("54.172.60.4"), Some("wide".into()));
    assert_eq!(named("10.0.0.1"), Some("wide".into()));
    assert_eq!(named("2001:db8::5"), Some("wide".into()));
    assert_eq!(named("2001:DB8:0::5"), Some("wide".into()));
    assert_eq!(named("2001:db9::5"), None);
    assert_eq!(named("54.172.61.1"), None);
    assert_eq!(named(""), None);
    assert_eq!(named("54.172.60.0/30"), None);
    assert!(server.peers[1].known_by("54.172.60.0"));
    assert!(!server.peers[3].known_by("54.172.60.0"));
}

#[test]
fn first_flagged_peer_counts() {
    let server = ServerConfig {
        listen: "0.0.0.0:5080".into(),
        peers: vec![
            peer_known_by("a", None, &[]),
            peer_known_by("b", None, &[]),
            peer_known_by("c", None, &[]),
        ],
        rtp_port_min: 0,
        rtp_port_max: 0,
        rtp_address: None,
    };
    let named = |flags: Vec<bool>| server.first_flagged(&flags).map(|p| p.name.clone());
    assert_eq!(named(vec![false, true, true]), Some("b".into()));
    assert_eq!(named(vec![true, true, true]), Some("a".into()));
    assert_eq!(named(vec![false, false, false]), None);
}

#[test]
fn format_goes_by_the_name_of_the_file() {
    assert_eq!(ConfigFormat::of_path("/etc/xbridge/config.toml"), ConfigFormat::Toml);
    assert_eq!(ConfigFormat::of_path("config.yaml"), ConfigFormat::Yaml);
    assert_eq!(ConfigFormat::of_path("config.yml"), ConfigFormat::Yaml);
    assert_eq!(ConfigFormat::of_path("toml"), ConfigFormat::Yaml);
}
