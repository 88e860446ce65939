//! The gateway's configuration: defaults, environment variables and command
//! line.

use vstd::prelude::*;
use vstd::string::*;

use crate::text::{comma_pieces, decimal, decimal_text, split_commas, texts};

verus! {

/// The port that the gateway listens on unless another is configured.
pub const DEFAULT_PORT: u16 = 7899;

/// The keys file unless another is configured.
pub const DEFAULT_KEYS_FILE: &'static str = "all_key.json";

/// The broker's address unless another is configured.
pub const DEFAULT_BROKER_URL: &'static str = "ws://127.0.0.1:8080";

/// The relays unless others are configured.
pub open spec fn default_relays() -> Seq<Seq<char>> {
    seq![
        "wss://relay.damus.io"@,
        "wss://relay.0xchat.com"@,
        "wss://nostr.oxtr.dev"@,
        "wss://nostr-pub.wellorder.net"@,
        "wss://relay.primal.net"@,
    ]
}

/// What the gateway runs with.
#[derive(Debug, Clone)]
pub struct Config {
    pub port: u16,
    pub broker_url: String,
    pub keys_file: String,
    pub relays: Vec<String>,
}

/// A configuration by its port and its texts.
#[verifier::ext_equal]
pub struct ConfigModel {
    pub port: u16,
    pub broker_url: Seq<char>,
    pub keys_file: Seq<char>,
    pub relays: Seq<Seq<char>>,
}

impl View for Config {
    type V = ConfigModel;

    open spec fn view(&self) -> ConfigModel {
        ConfigModel {
            port: self.port,
            broker_url: self.broker_url@,
            keys_file: self.keys_file@,
            relays: texts(self.relays@),
        }
    }
}

/// The values of the environment variables that the gateway looks at, where
/// they are set.
pub struct EnvVars {
    /// `WS_PORT`
    pub port: Option<String>,
    /// `WS_BROKER_URL`
    pub broker_url: Option<String>,
    /// `ALL_KEYS_FILE`
    pub keys_file: Option<String>,
    /// `RELAYS`
    pub relays: Option<String>,
}

/// The command line. The port and the keys file have defaults of their own
/// there, so they are always given.
pub struct CliArgs {
    pub port: u16,
    pub broker_url: Option<String>,
    pub keys_file: String,
    pub relays: Option<String>,
}

/// The number that decimal digits stand for.
pub open spec fn number(digits: Seq<char>) -> nat
    decreases digits.len(),
{
    if digits.len() == 0 {
        0
    } else {
        number(digits.drop_last()) * 10 + (digits.last() as nat - 48) as nat
    }
}

/// Whether a text is made of decimal digits and not empty.
pub open spec fn all_digits(text: Seq<char>) -> bool {
    &&& text.len() > 0
    &&& forall|i: int| 0 <= i < text.len() ==> '0' <= #[trigger] text[i] <= '9'
}

/// The digits of a number that may have a plus sign in front.
pub open spec fn without_plus(text: Seq<char>) -> Seq<char> {
    if text.len() > 0 && text[0] == '+' {
        text.drop_first()
    } else {
        text
    }
}

/// The port that a text stands for: decimal digits with an optional plus sign
/// in front and nothing else, for a number of 16 bits.
pub open spec fn port_number(text: Seq<char>) -> Option<u16> {
    let digits = without_plus(text);
    if all_digits(digits) && number(digits) <= u16::MAX {
        Some(number(digits) as u16)
    } else {
        None
    }
}

proof fn lemma_number_grows(digits: Seq<char>, n: int)
    requires
        0 <= n <= digits.len(),
    ensures
        number(digits.take(n)) <= number(digits),
    decreases digits.len(),
{
    if n == digits.len() {
        assert(digits.take(n) =~= digits);
    } else {
        assert(digits.drop_last().take(n) =~= digits.take(n));
        lemma_number_grows(digits.drop_last(), n);
    }
}

/// Reads a port number.
pub fn parse_port(text: &str) -> (port: Option<u16>)
    ensures
        port == port_number(text@),
{
    let ghost digits = without_plus(text@);
    let ghost skipped: int = text@.len() - digits.len();
    let mut value: u32 = 0;
    let mut any: bool = false;
    let mut i: usize = 0;
    assert(digits.take(0) =~= Seq::<char>::empty());
    let total: usize = text.unicode_len();
    for c in it: text.chars()
        invariant
            it.seq() == text@,
            i == it.index(),
            total == text@.len(),
            i <= total,
            digits == without_plus(text@),
            skipped == text@.len() - digits.len(),
            any == (i > skipped),
            forall|j: int| 0 <= j < i - skipped ==> '0' <= #[trigger] digits[j] <= '9',
            i >= skipped ==> value == number(digits.take(i - skipped)),
            i < skipped ==> value == 0,
            value <= u16::MAX,
    {
        if i == 0 && c == '+' {
            assert(digits.take(0) =~= Seq::<char>::empty());
        } else {
            assert(c == digits[i - skipped]);
            if c < '0' || c > '9' {
                return None;
            }
            proof {
                assert(digits.take(i - skipped + 1).drop_last() =~= digits.take(i - skipped));
            }
            value = value * 10 + (c as u32 - 48);
            any = true;
            if value > 65535 {
                proof {
                    lemma_number_grows(digits, i - skipped + 1);
                }
                return None;
            }
        }
        i = i + 1;
    }
    assert(digits.take(digits.len() as int) =~= digits);
    if any {
        Some(value as u16)
    } else {
        None
    }
}

/// The texts of the default relays.
fn default_relay_list() -> (relays: Vec<String>)
    ensures
        texts(relays@) == default_relays(),
{
    let mut relays: Vec<String> = Vec::new();
    relays.push("wss://relay.damus.io".to_owned());
    relays.push("wss://relay.0xchat.com".to_owned());
    relays.push("wss://nostr.oxtr.dev".to_owned());
    relays.push("wss://nostr-pub.wellorder.net".to_owned());
    relays.push("wss://relay.primal.net".to_owned());
    assert(texts(relays@) =~= default_relays());
    relays
}

/// The configuration without environment variables or a command line.
pub open spec fn default_config() -> ConfigModel {
    ConfigModel {
        port: DEFAULT_PORT,
        broker_url: DEFAULT_BROKER_URL@,
        keys_file: DEFAULT_KEYS_FILE@,
        relays: default_relays(),
    }
}

/// The text of a setting that may be absent.
pub open spec fn text_or(setting: Option<String>, default: Seq<char>) -> Seq<char> {
    match setting {
        Some(text) => text@,
        None => default,
    }
}

/// The relays of a comma-separated setting that may be absent.
pub open spec fn relays_or(setting: Option<String>, default: Seq<Seq<char>>) -> Seq<Seq<char>> {
    match setting {
        Some(text) => comma_pieces(text@),
        None => default,
    }
}

/// The configuration that the environment gives: each variable that is set,
/// and the default for each that is not. A port that does not parse counts as
/// not set.
pub open spec fn env_config(env: EnvVars) -> ConfigModel {
    ConfigModel {
        port: match env.port {
            Some(text) => match port_number(text@) {
                Some(port) => port,
                None => DEFAULT_PORT,
            },
            None => DEFAULT_PORT,
        },
        broker_url: text_or(env.broker_url, DEFAULT_BROKER_URL@),
        keys_file: text_or(env.keys_file, DEFAULT_KEYS_FILE@),
        relays: relays_or(env.relays, default_relays()),
    }
}

/// The configuration that the command line gives. The broker's address and the
/// relays come from the environment where the command line has none.
pub open spec fn cli_config(cli: CliArgs, env: EnvVars) -> ConfigModel {
    ConfigModel {
        port: cli.port,
        broker_url: text_or(cli.broker_url, env_config(env).broker_url),
        keys_file: cli.keys_file@,
        relays: relays_or(cli.relays, env_config(env).relays),
    }
}

impl Default for Config {
    fn default() -> (config: Self)
        ensures
            config@ == default_config(),
    {
        Config {
            port: DEFAULT_PORT,
            broker_url: DEFAULT_BROKER_URL.to_owned(),
            keys_file: DEFAULT_KEYS_FILE.to_owned(),
            relays: default_relay_list(),
        }
    }
}

impl Config {
    /// The configuration that the environment variables give.
    pub fn from_env(env: EnvVars) -> (config: Self)
        ensures
            config@ == env_config(env),
    {
        let port = match env.port {
            Some(text) => match parse_port(text.as_str()) {
                Some(port) => port,
                None => DEFAULT_PORT,
            },
            None => DEFAULT_PORT,
        };
        let broker_url = match env.broker_url {
            Some(text) => text,
            None => DEFAULT_BROKER_URL.to_owned(),
        };
        let keys_file = match env.keys_file {
            Some(text) => text,
            None => DEFAULT_KEYS_FILE.to_owned(),
        };
        let relays = match env.relays {
            Some(text) => split_commas(text.as_str()),
            None => default_relay_list(),
        };
        Config { port, broker_url, keys_file, relays }
    }

    /// The configuration that the command line gives, completed from the
    /// environment variables.
    pub fn from_cli(cli: CliArgs, env: EnvVars) -> (config: Self)
        ensures
            config@ == cli_config(cli, env),
    {
        let fallback = Config::from_env(env);
        let broker_url = match cli.broker_url {
            Some(text) => text,
            None => fallback.broker_url,
        };
        let relays = match cli.relays {
            Some(text) => split_commas(text.as_str()),
            None => fallback.relays,
        };
        Config { port: cli.port, broker_url, keys_file: cli.keys_file, relays }
    }

    /// The address that the gateway listens on: its port, on all interfaces.
    pub fn listen_addr(&self) -> (addr: String)
        ensures
            addr@ == "0.0.0.0:"@ + decimal(self.port as nat),
    {
        "0.0.0.0:".to_owned().concat(decimal_text(self.port as u64).as_str())
    }
}

/// An environment in which no variable is set gives the default configuration.
pub proof fn law_empty_environment_is_default(env: EnvVars)
    requires
        env.port is None,
        env.broker_url is None,
        env.keys_file is None,
        env.relays is None,
    ensures
        env_config(env) == default_config(),
{
}

/// The environment's port and keys file have no say in the configuration of
/// the command line.
pub proof fn law_command_line_port_and_keys_file(cli: CliArgs, env: EnvVars, other: EnvVars)
    requires
        env.broker_url == other.broker_url,
        env.relays == other.relays,
    ensures
        cli_config(cli, env) == cli_config(cli, other),
{
}

}
