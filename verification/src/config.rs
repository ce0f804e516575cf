//! Startup configuration: the backing-store coordinates and the listen
//! port.
//!
//! Every value but the port is required; a missing one, or an unparseable
//! port, is a fatal `ConfigError`, and the process must not start. The port
//! defaults when unset.

use vstd::prelude::*;
use vstd::string::StrSliceExecFns;
use vstd::string::StringExecFns;

verus! {

/// The validated startup configuration.
#[derive(Debug)]
pub struct Config {
    pub user: String,
    pub password: String,
    pub database: String,
    pub host: String,
    pub port: u16,
}

/// Which startup value was missing or malformed.
#[derive(PartialEq, Eq, Structural, Clone, Copy, Debug)]
pub enum ConfigError {
    MissingUser,
    MissingPassword,
    MissingDatabase,
    MissingHost,
    BadPort,
}

/// The listen port used when none is configured.
pub const DEFAULT_PORT: u16 = 8080;

pub open spec fn is_digit(c: char) -> bool {
    '0' as u32 <= c as u32 && c as u32 <= '9' as u32
}

pub open spec fn digit_value(c: char) -> int {
    c as u32 - '0' as u32
}

pub open spec fn all_digits(s: Seq<char>) -> bool {
    forall|i: int| 0 <= i < s.len() ==> #[trigger] is_digit(s[i])
}

/// The number written by a digit string, most significant digit first.
pub open spec fn digits_val(s: Seq<char>) -> int
    decreases s.len(),
{
    if s.len() == 0 {
        0
    } else {
        digits_val(s.drop_last()) * 10 + digit_value(s.last())
    }
}

/// A port parses exactly when it is a nonempty digit string whose value
/// fits in sixteen bits.
pub open spec fn spec_parse_port(s: Seq<char>) -> Option<u16> {
    if s.len() > 0 && all_digits(s) && digits_val(s) <= 65535 {
        Some(digits_val(s) as u16)
    } else {
        None
    }
}

proof fn lemma_digits_val_bounds(s: Seq<char>, k: int)
    requires
        all_digits(s),
        0 <= k <= s.len(),
    ensures
        digits_val(s) >= 0,
        digits_val(s) >= digits_val(s.take(k)),
    decreases s.len(),
{
    if s.len() == 0 {
        assert(s.take(k) =~= s);
    } else if k == s.len() {
        lemma_digits_val_bounds(s.drop_last(), s.len() - 1);
        assert(s.take(k) =~= s);
        assert(is_digit(s.last()));
    } else {
        let head = s.drop_last();
        assert(all_digits(head));
        lemma_digits_val_bounds(head, k);
        assert(head.take(k) =~= s.take(k));
        assert(is_digit(s.last()));
        assert(digits_val(s) == digits_val(head) * 10 + digit_value(s.last()));
        assert(digits_val(head) * 10 >= digits_val(head)) by (nonlinear_arith)
            requires
                digits_val(head) >= 0,
        ;
    }
}

/// Parses a decimal port number. Accepts exactly the nonempty all-digit
/// strings whose value fits in sixteen bits.
#[verifier::loop_isolation(false)]
pub fn parse_port(s: &String) -> (r: Option<u16>)
    ensures
        r == spec_parse_port(s@),
{
    let st = s.as_str();
    let n = st.unicode_len();
    if n == 0 {
        return None;
    }
    let mut value: u32 = 0;
    let mut i: usize = 0;
    while i < n
        invariant
            i <= n,
            n == s@.len(),
            st@ == s@,
            all_digits(s@.take(i as int)),
            value == digits_val(s@.take(i as int)),
            value <= 65535,
        decreases n - i,
    {
        let c = st.get_char(i);
        let u = c as u32;
        if u < 48 || u > 57 {
            proof {
                assert(!is_digit(s@[i as int]));
            }
            return None;
        }
        let d = u - 48;
        let next = value * 10 + d;
        proof {
            assert(s@.take(i as int + 1).drop_last() =~= s@.take(i as int));
            assert(s@.take(i as int + 1).last() == s@[i as int]);
            assert(is_digit(s@[i as int]));
            assert(all_digits(s@.take(i as int + 1)));
            assert(digits_val(s@.take(i as int + 1)) == next);
        }
        if next > 65535 {
            proof {
                if all_digits(s@) {
                    lemma_digits_val_bounds(s@, i as int + 1);
                }
            }
            return None;
        }
        value = next;
        i = i + 1;
    }
    proof {
        assert(s@.take(n as int) =~= s@);
    }
    Some(value as u16)
}

/// The port to listen on: the default when none is configured, else the
/// parsed value.
pub open spec fn spec_port_value(port: Option<String>) -> Option<u16> {
    match port {
        None => Some(DEFAULT_PORT),
        Some(s) => spec_parse_port(s@),
    }
}

/// What validation makes of the raw startup values, first missing value
/// first: user, password, database and host are required, and the port must
/// parse when present.
pub open spec fn spec_from_values(
    user: Option<String>,
    password: Option<String>,
    database: Option<String>,
    host: Option<String>,
    port: Option<String>,
) -> Result<Config, ConfigError> {
    if user is None {
        Err(ConfigError::MissingUser)
    } else if password is None {
        Err(ConfigError::MissingPassword)
    } else if database is None {
        Err(ConfigError::MissingDatabase)
    } else if host is None {
        Err(ConfigError::MissingHost)
    } else if spec_port_value(port) is None {
        Err(ConfigError::BadPort)
    } else {
        Ok(
            (Config {
                user: user->Some_0,
                password: password->Some_0,
                database: database->Some_0,
                host: host->Some_0,
                port: spec_port_value(port)->Some_0,
            }),
        )
    }
}

/// Validates the raw startup values into a configuration. Fails exactly
/// when a required value is missing or the port does not parse; the caller
/// must then abort startup.
pub fn from_values(
    user: Option<String>,
    password: Option<String>,
    database: Option<String>,
    host: Option<String>,
    port: Option<String>,
) -> (r: Result<Config, ConfigError>)
    ensures
        r == spec_from_values(user, password, database, host, port),
{
    let user = match user {
        Some(u) => u,
        None => {
            return Err(ConfigError::MissingUser);
        },
    };
    let password = match password {
        Some(p) => p,
        None => {
            return Err(ConfigError::MissingPassword);
        },
    };
    let database = match database {
        Some(d) => d,
        None => {
            return Err(ConfigError::MissingDatabase);
        },
    };
    let host = match host {
        Some(h) => h,
        None => {
            return Err(ConfigError::MissingHost);
        },
    };
    let port_num = match port {
        None => DEFAULT_PORT,
        Some(p) => match parse_port(&p) {
            Some(v) => v,
            None => {
                return Err(ConfigError::BadPort);
            },
        },
    };
    Ok(Config { user, password, database, host, port: port_num })
}

/// The connection URL for the backing store, written from the configured
/// coordinates.
pub open spec fn spec_db_url(c: Config) -> Seq<char> {
    "postgres://"@ + c.user@ + ":"@ + c.password@ + "@"@ + c.host@ + "/"@ + c.database@
}

/// Writes the backing store's connection URL.
pub fn build_db_url(c: &Config) -> (r: String)
    ensures
        r@ == spec_db_url(*c),
{
    let mut url = "postgres://".to_owned();
    url.append(c.user.as_str());
    url.append(":");
    url.append(c.password.as_str());
    url.append("@");
    url.append(c.host.as_str());
    url.append("/");
    url.append(c.database.as_str());
    url
}

} // verus!
