use rs_p2_gateway::config::{parse_port, CliArgs, Config, EnvVars};

fn no_env() -> EnvVars {
    EnvVars { port: None, broker_url: None, keys_file: None, relays: None }
}

fn text(s: &str) -> Option<String> {
    Some(s.to_string())
}

#[test]
fn defaults() {
    let config = Config::default();
    assert_eq!(config.port, 7899);
    assert_eq!(config.broker_url, "ws://127.0.0.1:8080");
    assert_eq!(config.keys_file, "all_key.json");
    assert_eq!(
        config.relays,
        vec![
            "wss://relay.damus.io",
            "wss://relay.0xchat.com",
            "wss://nostr.oxtr.dev",
            "wss://nostr-pub.wellorder.net",
            "wss://relay.primal.net",
        ]
    );
}

#[test]
fn an_empty_environment_gives_the_defaults() {
    let config = Config::from_env(no_env());
    let default = Config::default();
    assert_eq!(config.port, default.port);
    assert_eq!(config.broker_url, default.broker_url);
    assert_eq!(config.keys_file, default.keys_file);
    assert_eq!(config.relays, default.relays);
}

#[test]
fn the_environment_overrides_the_defaults() {
    let config = Config::from_env(EnvVars {
        port: text("9000"),
        broker_url: text("ws://broker"),
        keys_file: text("/var/keys.json"),
        relays: text("wss://a,wss://b"),
    });
    assert_eq!(config.port, 9000);
    assert_eq!(config.broker_url, "ws://broker");
    assert_eq!(config.keys_file, "/var/keys.json");
    assert_eq!(config.relays, vec!["wss://a", "wss://b"]);
}

#[test]
fn a_port_that_does_not_parse_is_ignored() {
    for bad in ["", "+", "-1", "65536", "80a", " 80", "8_0", "99999999999999999999"] {
        let config = Config::from_env(EnvVars { port: text(bad), ..no_env() });
        assert_eq!(config.port, 7899);
    }
}

#[test]
fn ports_parse_as_in_the_standard_library() {
    let cases = [
        "0", "7", "80", "0080", "+80", "65535", "65536", "+65535", "++1", "1+", "-0", "", "+", " 1",
        "1 ", "٣", "00000000000000000001", "6553600",
    ];
    for case in cases {
        assert_eq!(parse_port(case), case.parse::<u16>().ok(), "{}", case);
    }
}

#[test]
fn an_empty_relay_setting_is_one_empty_relay() {
    let config = Config::from_env(EnvVars { relays: text(""), ..no_env() });
    assert_eq!(config.relays, vec![""]);
}

#[test]
fn the_command_line_overrides_the_environment() {
    let env = EnvVars {
        port: text("9000"),
        broker_url: text("ws://env"),
        keys_file: text("env.json"),
        relays: text("wss://env"),
    };
    let cli = CliArgs {
        port: 7899,
        broker_url: text("ws://cli"),
        keys_file: "all_key.json".to_string(),
        relays: text("wss://cli,wss://more"),
    };
    let config = Config::from_cli(cli, env);
    assert_eq!(config.port, 7899);
    assert_eq!(config.broker_url, "ws://cli");
    assert_eq!(config.keys_file, "all_key.json");
    assert_eq!(config.relays, vec!["wss://cli", "wss://more"]);
}

#[test]
fn the_environment_completes_the_command_line() {
    let env = EnvVars { broker_url: text("ws://env"), ..no_env() };
    let cli =
        CliArgs { port: 1, broker_url: None, keys_file: "k.json".to_string(), relays: None };
    let config = Config::from_cli(cli, env);
    assert_eq!(config.port, 1);
    assert_eq!(config.broker_url, "ws://env");
    assert_eq!(config.keys_file, "k.json");
    assert_eq!(config.relays, Config::default().relays);
}

#[test]
fn the_address_to_listen_on() {
    assert_eq!(Config::default().listen_addr(), "0.0.0.0:7899");
}
