//! Configuration resolution: network host, port and persistent-store
//! connection string, each required at startup, plus the text of the
//! generated client configuration artifact.

use vstd::prelude::*;
use vstd::string::StrSliceExecFns;
use vstd::string::StringExecFns;

verus! {

/// Why configuration resolution failed; each variant names the missing or
/// malformed value.
#[derive(Clone, Copy, Debug, PartialEq, Eq, Structural)]
pub enum ConfigError {
    MissingHost,
    MissingPort,
    InvalidPort,
    MissingDatabaseUrl,
}

/// True for a decimal digit character.
pub open spec fn is_digit_char(c: char) -> bool {
    '0' <= c && c <= '9'
}

/// Numeric value of a decimal digit character.
pub open spec fn digit_value(c: char) -> int {
    c as int - '0' as int
}

/// Every character of the sequence is a decimal digit.
pub open spec fn all_digits(s: Seq<char>) -> bool {
    forall|i: int| 0 <= i < s.len() ==> is_digit_char(#[trigger] s[i])
}

/// Value of a sequence of decimal digits read most-significant first.
pub open spec fn decimal_value(s: Seq<char>) -> int
    decreases s.len(),
{
    if s.len() == 0 {
        0
    } else {
        decimal_value(s.drop_last()) * 10 + digit_value(s.last())
    }
}

/// A port string is accepted when it is one to five decimal digits whose
/// value fits a `u16`.
pub open spec fn spec_valid_port(s: Seq<char>) -> bool {
    1 <= s.len() <= 5 && all_digits(s) && decimal_value(s) <= 65535
}

/// Ten to the `n`.
pub open spec fn pow10(n: nat) -> int
    decreases n,
{
    if n == 0 {
        1
    } else {
        10 * pow10((n - 1) as nat)
    }
}

/// A digit string of length `n` has value in `[0, 10^n)`.
proof fn lemma_decimal_value_bound(s: Seq<char>)
    requires
        all_digits(s),
    ensures
        0 <= decimal_value(s) < pow10(s.len()),
    decreases s.len(),
{
    if s.len() > 0 {
        assert(all_digits(s.drop_last()));
        lemma_decimal_value_bound(s.drop_last());
    }
}

/// Parses a port string: one to five decimal digits, value at most 65535.
/// Returns `None` exactly on strings the grammar rejects.
pub fn parse_port(s: &str) -> (r: Option<u16>)
    ensures
        r is Some <==> spec_valid_port(s@),
        r is Some ==> r->0 as int == decimal_value(s@),
{
    let n = s.unicode_len();
    if n == 0 || n > 5 {
        proof {
            if spec_valid_port(s@) {
                assert(1 <= s@.len() <= 5);
            }
        }
        return None;
    }
    let mut value: u32 = 0;
    let mut i: usize = 0;
    while i < n
        invariant
            0 < n <= 5,
            n == s@.len(),
            0 <= i <= n,
            all_digits(s@.subrange(0, i as int)),
            value == decimal_value(s@.subrange(0, i as int)),
            value < 100000,
        decreases n - i,
    {
        let c = s.get_char(i);
        if c < '0' || c > '9' {
            proof {
                assert(s@.subrange(0, n as int) =~= s@);
                assert(!is_digit_char(s@[i as int]));
            }
            return None;
        }
        proof {
            assert(s@.subrange(0, i as int + 1).drop_last() =~= s@.subrange(0, i as int));
            assert(s@.subrange(0, i as int + 1).last() == s@[i as int]);
            lemma_decimal_value_bound(s@.subrange(0, i as int + 1));
            assert(pow10(0) == 1);
            assert(pow10(1) == 10);
            assert(pow10(2) == 100);
            assert(pow10(3) == 1000);
            assert(pow10(4) == 10000);
            assert(pow10(5) == 100000);
        }
        value = value * 10 + (c as u32 - '0' as u32);
        i = i + 1;
    }
    proof {
        assert(s@.subrange(0, n as int) =~= s@);
    }
    if value > 65535 {
        None
    } else {
        Some(value as u16)
    }
}

/// The resolved startup configuration: network host and port and the
/// persistent-store connection string.
pub struct Config {
    pub host: String,
    pub port: u16,
    pub port_text: String,
    pub db_url: String,
}

impl Config {
    /// The port text is a valid port string and agrees with the numeric port.
    pub open spec fn wf(&self) -> bool {
        &&& spec_valid_port(self.port_text@)
        &&& decimal_value(self.port_text@) == self.port as int
    }
}

/// Resolves the startup configuration from the raw environment values.
/// Absence of a required value, or a malformed port, is an error naming the
/// offending value; nothing else fails.
pub fn resolve_config(host: Option<String>, port: Option<String>, db_url: Option<String>) -> (r:
    Result<Config, ConfigError>)
    ensures
        host is None ==> r == Err::<Config, ConfigError>(ConfigError::MissingHost),
        host is Some && port is None ==> r == Err::<Config, ConfigError>(ConfigError::MissingPort),
        host is Some && port is Some && !spec_valid_port(port->0@) ==> r == Err::<
            Config,
            ConfigError,
        >(ConfigError::InvalidPort),
        host is Some && port is Some && spec_valid_port(port->0@) && db_url is None ==> r == Err::<
            Config,
            ConfigError,
        >(ConfigError::MissingDatabaseUrl),
        host is Some && port is Some && spec_valid_port(port->0@) && db_url is Some ==> {
            &&& r is Ok
            &&& r->Ok_0.host == host->0
            &&& r->Ok_0.port_text == port->0
            &&& r->Ok_0.port as int == decimal_value(port->0@)
            &&& r->Ok_0.db_url == db_url->0
            &&& r->Ok_0.wf()
        },
{
    let host = match host {
        Some(h) => h,
        None => {
            return Err(ConfigError::MissingHost);
        },
    };
    let port_text = match port {
        Some(p) => p,
        None => {
            return Err(ConfigError::MissingPort);
        },
    };
    let port = match parse_port(port_text.as_str()) {
        Some(v) => v,
        None => {
            return Err(ConfigError::InvalidPort);
        },
    };
    let db_url = match db_url {
        Some(d) => d,
        None => {
            return Err(ConfigError::MissingDatabaseUrl);
        },
    };
    Ok(Config { host, port, port_text, db_url })
}

/// The client-facing HTTP base URL, `http://<host>:<port>`.
pub open spec fn spec_http_base(host: Seq<char>, port: Seq<char>) -> Seq<char> {
    "http://"@ + host + ":"@ + port
}

/// The client-facing WebSocket base URL, `ws://<host>:<port>/ws`.
pub open spec fn spec_ws_base(host: Seq<char>, port: Seq<char>) -> Seq<char> {
    "ws://"@ + host + ":"@ + port + "/ws"@
}

/// The full text of the generated client configuration artifact.
pub open spec fn spec_frontend_config(host: Seq<char>, port: Seq<char>) -> Seq<char> {
    "export const SERVER_IP = '"@ + spec_http_base(host, port) + "'; \nexport const WS_SERVER_IP = '"@
        + spec_ws_base(host, port) + "'; "@
}

/// Builds `http://<host>:<port>` from the resolved configuration.
pub fn http_base_url(config: &Config) -> (r: String)
    ensures
        r@ == spec_http_base(config.host@, config.port_text@),
{
    let mut s = String::from_str("http://");
    s.append(config.host.as_str());
    s.append(":");
    s.append(config.port_text.as_str());
    proof {
        assert(s@ =~= spec_http_base(config.host@, config.port_text@));
    }
    s
}

/// Builds `ws://<host>:<port>/ws` from the resolved configuration.
pub fn ws_base_url(config: &Config) -> (r: String)
    ensures
        r@ == spec_ws_base(config.host@, config.port_text@),
{
    let mut s = String::from_str("ws://");
    s.append(config.host.as_str());
    s.append(":");
    s.append(config.port_text.as_str());
    s.append("/ws");
    proof {
        assert(s@ =~= spec_ws_base(config.host@, config.port_text@));
    }
    s
}

/// Builds the whole client configuration artifact: two string constants, the
/// HTTP base URL and the WebSocket base URL. The caller writes it out;
/// a failed write is fatal to startup.
pub fn frontend_config_text(config: &Config) -> (r: String)
    ensures
        r@ == spec_frontend_config(config.host@, config.port_text@),
{
    let mut s = String::from_str("export const SERVER_IP = '");
    let http = http_base_url(config);
    s.append(http.as_str());
    s.append("'; \nexport const WS_SERVER_IP = '");
    let ws = ws_base_url(config);
    s.append(ws.as_str());
    s.append("'; ");
    proof {
        assert(s@ =~= spec_frontend_config(config.host@, config.port_text@));
    }
    s
}

} // verus!
