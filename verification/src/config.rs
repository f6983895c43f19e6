//! Connection settings read from the environment: database addresses, the
//! broker's endpoints and the API server's configuration.
use crate::crypto::{base64_decode, base64_decoding};
use crate::text::{digit_char, nat_digits, push_digits};
use vstd::prelude::*;

verus! {

/// Whether a character is a decimal digit.
pub open spec fn is_digit_char(c: char) -> bool {
    ('0' as int) <= (c as int) <= ('9' as int)
}

/// The value of a string of decimal digits.
pub open spec fn digits_value(s: Seq<char>) -> int
    decreases s.len(),
{
    if s.len() == 0 {
        0
    } else {
        digits_value(s.drop_last()) * 10 + ((s.last() as int) - ('0' as int))
    }
}

/// A non-empty string of digits.
pub open spec fn all_digits(s: Seq<char>) -> bool {
    s.len() > 0 && forall|i: int| 0 <= i < s.len() ==> is_digit_char(#[trigger] s[i])
}

/// A text without its leading `+`, if it has one.
pub open spec fn unsigned_part(s: Seq<char>) -> Seq<char> {
    if s.len() > 0 && s[0] == '+' {
        s.drop_first()
    } else {
        s
    }
}

/// The number read from a text as `str::parse::<u16>` reads it: an optional
/// `+` followed by decimal digits only, the value fitting in 16 bits.
pub open spec fn u16_parse(s: Seq<char>) -> Option<u16> {
    let t = unsigned_part(s);
    if all_digits(t) && digits_value(t) <= u16::MAX {
        Some(digits_value(t) as u16)
    } else {
        None
    }
}

/// The number read from a text as `str::parse` reads an unsigned integer of
/// at most `max`: an optional `+` followed by decimal digits only.
pub open spec fn unsigned_parse(s: Seq<char>, max: int) -> Option<int> {
    let t = unsigned_part(s);
    if all_digits(t) && digits_value(t) <= max {
        Some(digits_value(t))
    } else {
        None
    }
}

/// Reading the decimal text of a number gives the number back: the text is
/// all digits, its value is the number, and it parses to the number whenever
/// that fits the bound.
pub proof fn law_parse_reads_decimal_text(n: nat, max: int)
    ensures
        all_digits(nat_digits(n)),
        digits_value(nat_digits(n)) == n,
        n <= max ==> unsigned_parse(nat_digits(n), max) == Some(n as int),
        n > max ==> unsigned_parse(nat_digits(n), max) is None,
    decreases n,
{
    let t = nat_digits(n);
    let d = n % 10;
    assert((digit_char(d as int) as int) - ('0' as int) == d && is_digit_char(digit_char(d as int)));
    if n >= 10 {
        law_parse_reads_decimal_text(n / 10, max);
        let u = nat_digits(n / 10);
        assert(t == u.push(digit_char(d as int)));
        assert(t.drop_last() =~= u);
        assert forall|i: int| 0 <= i < t.len() implies is_digit_char(#[trigger] t[i]) by {
            if i < u.len() {
                assert(t[i] == u[i]);
            }
        }
        assert(t.last() == digit_char(d as int));
        assert(digits_value(t) == digits_value(u) * 10 + d);
        assert((n / 10) * 10 + d == n);
    } else {
        assert(t == seq![digit_char(n as int)]);
        assert(t.drop_last() =~= Seq::<char>::empty());
        assert(digits_value(t.drop_last()) == 0);
        assert(t.last() == digit_char(n as int));
        assert(d == n);
        assert(digits_value(t) == digits_value(t.drop_last()) * 10 + d);
        assert forall|i: int| 0 <= i < t.len() implies is_digit_char(#[trigger] t[i]) by {
            assert(i == 0);
        }
    }
    assert(t[0] != '+');
}

/// Digits read one more at a time.
proof fn lemma_digits_step(t: Seq<char>, j: int)
    requires
        0 <= j < t.len(),
    ensures
        digits_value(t.take(j + 1)) == digits_value(t.take(j)) * 10 + ((t[j] as int) - ('0' as int)),
{
    assert(t.take(j + 1).drop_last() =~= t.take(j));
}

/// More digits never make a smaller number.
proof fn lemma_digits_grow(t: Seq<char>, j: int)
    requires
        0 <= j <= t.len(),
        forall|i: int| 0 <= i < t.len() ==> is_digit_char(#[trigger] t[i]),
    ensures
        digits_value(t.take(j)) <= digits_value(t),
    decreases t.len() - j,
{
    if j < t.len() {
        lemma_digits_step(t, j);
        lemma_digits_grow(t, j + 1);
        assert(digits_value(t.take(j)) >= 0) by {
            lemma_digits_nonneg(t.take(j));
        }
    } else {
        assert(t.take(j) =~= t);
    }
}

/// Digits make a number of at least zero.
proof fn lemma_digits_nonneg(t: Seq<char>)
    requires
        forall|i: int| 0 <= i < t.len() ==> is_digit_char(#[trigger] t[i]),
    ensures
        digits_value(t) >= 0,
    decreases t.len(),
{
    if t.len() > 0 {
        assert forall|i: int| 0 <= i < t.drop_last().len() implies is_digit_char(#[trigger] t.drop_last()[i]) by {
            assert(t.drop_last()[i] == t[i]);
        }
        lemma_digits_nonneg(t.drop_last());
    }
}

/// Reads an unsigned integer of at most `max` as `str::parse` does.
pub(crate) fn parse_unsigned(s: &str, max: u64) -> (r: Option<u64>)
    ensures
        match r {
            Some(v) => unsigned_parse(s@, max as int) == Some(v as int),
            None => unsigned_parse(s@, max as int) is None,
        },
{
    let ghost t = unsigned_part(s@);
    let n = s.unicode_len();
    let start: usize = if n > 0 && s.get_char(0) == '+' { 1 } else { 0 };
    assert(t =~= s@.skip(start as int));
    if start == n {
        return None;
    }
    let mut acc: u64 = 0;
    let mut i: usize = start;
    while i < n
        invariant
            n == s@.len(),
            t == s@.skip(start as int),
            t == unsigned_part(s@),
            start <= i <= n,
            start < n,
            forall|j: int| 0 <= j < i - start ==> is_digit_char(#[trigger] t[j]),
            acc == digits_value(t.take(i - start)),
            acc <= max,
        decreases n - i,
    {
        let c = s.get_char(i);
        let u = c as u32;
        assert(t[i - start] == c);
        if u < 48 || u > 57 {
            assert(!is_digit_char(t[i - start]));
            assert(!all_digits(t));
            return None;
        }
        let d = (u - 48) as u64;
        proof {
            lemma_digits_step(t, i - start);
        }
        if d > max || acc > (max - d) / 10 {
            proof {
                assert(acc * 10 + d > max) by (nonlinear_arith)
                    requires
                        d > max || acc > (max - d) / 10,
                        acc >= 0,
                        d >= 0,
                ;
                if all_digits(t) {
                    lemma_digits_grow(t, i - start + 1);
                }
            }
            return None;
        }
        assert(acc * 10 + d <= max) by (nonlinear_arith)
            requires
                acc <= (max - d) / 10,
                d <= max,
        ;
        acc = acc * 10 + d;
        i = i + 1;
    }
    assert(t.take(n - start) =~= t);
    Some(acc)
}

/// `str::parse::<u16>`: an optional `+` followed by ASCII digits whose value
/// fits in 16 bits; anything else is refused.
fn parse_u16(s: &str) -> (r: Option<u16>)
    ensures
        r == u16_parse(s@),
{
    match parse_unsigned(s, 65535) {
        Some(v) => Some(v as u16),
        None => None,
    }
}

/// Why a configuration could not be read.
#[derive(Debug)]
pub enum ConfigError {
    /// A variable is not set.
    MissingEnvVar(String),
    /// A variable holds a value that cannot be used.
    InvalidEnvVar(String),
}

/// Whether `r` is the error that the variable `name` is missing.
pub open spec fn is_missing<T>(r: Result<T, ConfigError>, name: Seq<char>) -> bool {
    match r {
        Err(ConfigError::MissingEnvVar(n)) => n@ == name,
        _ => false,
    }
}

/// Whether `r` is the error that the variable `name` is invalid.
pub open spec fn is_invalid<T>(r: Result<T, ConfigError>, name: Seq<char>) -> bool {
    match r {
        Err(ConfigError::InvalidEnvVar(n)) => n@ == name,
        _ => false,
    }
}

/// The settings of the market-data database.
#[derive(Debug, Clone)]
pub struct DbConfig {
    pub host: String,
    pub port: u16,
    pub database: String,
    pub username: String,
    pub password: String,
    /// Size of the connection pool (5 by default).
    pub max_connections: u32,
}

/// The settings of the bonds database.
#[derive(Debug, Clone)]
pub struct ClientConfig {
    pub host: String,
    pub port: u16,
    pub username: String,
    pub password: String,
    /// Size of the connection pool (5 by default).
    pub max_connections: u32,
    pub ssl_root_cert_path: String,
}

/// Appends a piece of text.
fn push_str(s: &mut String, piece: &str)
    ensures
        final(s)@ == old(s)@ + piece@,
{
    s.append(piece);
}

impl DbConfig {
    /// `postgresql://{username}:{password}@{host}:{port}/{database}`.
    pub open spec fn url_spec(&self) -> Seq<char> {
        "postgresql://"@ + self.username@ + ":"@ + self.password@ + "@"@ + self.host@ + ":"@ + nat_digits(
            self.port as nat,
        ) + "/"@ + self.database@
    }

    /// The connection address of the database.
    pub fn database_url(&self) -> (r: String)
        ensures
            r@ == self.url_spec(),
    {
        let mut s = String::from_str("postgresql://");
        push_str(&mut s, self.username.as_str());
        push_str(&mut s, ":");
        push_str(&mut s, self.password.as_str());
        push_str(&mut s, "@");
        push_str(&mut s, self.host.as_str());
        push_str(&mut s, ":");
        push_digits(&mut s, self.port as u64);
        push_str(&mut s, "/");
        push_str(&mut s, self.database.as_str());
        assert(s@ =~= self.url_spec());
        s
    }

    /// The settings from the values of `DB_HOST`, `DB_PORT`, `DB_NAME`,
    /// `DB_USERNAME` and `DB_PASSWORD`: the first missing variable, or an
    /// invalid port, is an error.
    pub fn from_vars(
        host: Option<String>,
        port: Option<String>,
        database: Option<String>,
        username: Option<String>,
        password: Option<String>,
    ) -> (r: Result<DbConfig, ConfigError>)
        ensures
            host is None ==> is_missing(r, "DB_HOST"@),
            host is Some && port is None ==> is_missing(r, "DB_PORT"@),
            host is Some && port is Some && u16_parse(port->0@) is None ==> is_invalid(r, "DB_PORT"@),
            host is Some && port is Some && u16_parse(port->0@) is Some && database is None ==> is_missing(
                r,
                "DB_NAME"@,
            ),
            host is Some && port is Some && u16_parse(port->0@) is Some && database is Some && username is None
                ==> is_missing(r, "DB_USERNAME"@),
            host is Some && port is Some && u16_parse(port->0@) is Some && database is Some && username is Some
                && password is None ==> is_missing(r, "DB_PASSWORD"@),
            r is Ok <==> (host is Some && port is Some && u16_parse(port->0@) is Some && database is Some
                && username is Some && password is Some),
            r is Ok ==> {
                &&& r->Ok_0.host == host->0
                &&& Some(r->Ok_0.port) == u16_parse(port->0@)
                &&& r->Ok_0.database == database->0
                &&& r->Ok_0.username == username->0
                &&& r->Ok_0.password == password->0
                &&& r->Ok_0.max_connections == 5
            },
    {
        let host = match host {
            None => return Err(ConfigError::MissingEnvVar(String::from_str("DB_HOST"))),
            Some(h) => h,
        };
        let port = match port {
            None => return Err(ConfigError::MissingEnvVar(String::from_str("DB_PORT"))),
            Some(p) => match parse_u16(p.as_str()) {
                None => return Err(ConfigError::InvalidEnvVar(String::from_str("DB_PORT"))),
                Some(v) => v,
            },
        };
        let database = match database {
            None => return Err(ConfigError::MissingEnvVar(String::from_str("DB_NAME"))),
            Some(d) => d,
        };
        let username = match username {
            None => return Err(ConfigError::MissingEnvVar(String::from_str("DB_USERNAME"))),
            Some(u) => u,
        };
        let password = match password {
            None => return Err(ConfigError::MissingEnvVar(String::from_str("DB_PASSWORD"))),
            Some(p) => p,
        };
        Ok(DbConfig { host, port, database, username, password, max_connections: 5 })
    }
}

impl ClientConfig {
    /// `postgresql://{username}:{password}@{host}:{port}/bonds_db?sslmode=verify-full&sslrootcert={path}`.
    pub open spec fn url_spec(&self) -> Seq<char> {
        "postgresql://"@ + self.username@ + ":"@ + self.password@ + "@"@ + self.host@ + ":"@ + nat_digits(
            self.port as nat,
        ) + "/bonds_db?sslmode=verify-full&sslrootcert="@ + self.ssl_root_cert_path@
    }

    /// The connection address of the bonds database, with certificate
    /// verification.
    pub fn database_url(&self) -> (r: String)
        ensures
            r@ == self.url_spec(),
    {
        let mut s = String::from_str("postgresql://");
        push_str(&mut s, self.username.as_str());
        push_str(&mut s, ":");
        push_str(&mut s, self.password.as_str());
        push_str(&mut s, "@");
        push_str(&mut s, self.host.as_str());
        push_str(&mut s, ":");
        push_digits(&mut s, self.port as u64);
        push_str(&mut s, "/bonds_db?sslmode=verify-full&sslrootcert=");
        push_str(&mut s, self.ssl_root_cert_path.as_str());
        assert(s@ =~= self.url_spec());
        s
    }

    /// The settings from the values of `BONDS_DB_HOST`, `BONDS_DB_PORT`,
    /// `BONDS_DB_USERNAME`, `BONDS_DB_PASSWORD` and
    /// `BONDS_DB_SSL_ROOT_CERT_PATH`; `None` when one is missing or the port
    /// is invalid.
    pub fn from_vars(
        host: Option<String>,
        port: Option<String>,
        username: Option<String>,
        password: Option<String>,
        ssl_root_cert_path: Option<String>,
    ) -> (r: Option<ClientConfig>)
        ensures
            r is Some <==> (host is Some && port is Some && u16_parse(port->0@) is Some && username is Some
                && password is Some && ssl_root_cert_path is Some),
            r is Some ==> {
                &&& r->0.host == host->0
                &&& Some(r->0.port) == u16_parse(port->0@)
                &&& r->0.username == username->0
                &&& r->0.password == password->0
                &&& r->0.ssl_root_cert_path == ssl_root_cert_path->0
                &&& r->0.max_connections == 5
            },
    {
        let host = host?;
        let port = parse_u16(port?.as_str())?;
        let username = username?;
        let password = password?;
        let ssl_root_cert_path = ssl_root_cert_path?;
        Some(ClientConfig { host, port, username, password, max_connections: 5, ssl_root_cert_path })
    }
}

/// The broker's API environments.
#[derive(Clone, Copy, Debug, PartialEq, Eq, Structural)]
pub enum EndPoint {
    /// Production.
    Prod,
    /// The sandbox.
    Sandbox,
}

impl EndPoint {
    /// The address of the environment.
    pub fn url(&self) -> (r: &'static str)
        ensures
            r@ == (match *self {
                EndPoint::Prod => "https://invest-public-api.tinkoff.ru:443"@,
                EndPoint::Sandbox => "https://sandbox-invest-public-api.tinkoff.ru:443"@,
            }),
    {
        match self {
            EndPoint::Prod => "https://invest-public-api.tinkoff.ru:443",
            EndPoint::Sandbox => "https://sandbox-invest-public-api.tinkoff.ru:443",
        }
    }
}

/// The configuration of the API server.
pub struct ApiConfig {
    pub jwt_secret: String,
    pub listen_addr: String,
    /// The AES-256 key the broker tokens are stored under.
    pub token_encryption_key: [u8; 32],
}

/// Why the API server's configuration could not be read.
#[derive(Clone, Copy, Debug, PartialEq, Eq, Structural)]
pub enum ApiConfigError {
    /// `TOKEN_ENCRYPTION_KEY` is not set.
    MissingKey,
    /// `TOKEN_ENCRYPTION_KEY` is not base64.
    InvalidKey,
    /// `TOKEN_ENCRYPTION_KEY` does not hold exactly 32 bytes.
    WrongKeyLength,
    /// `JWT_SECRET` is not set.
    MissingJwtSecret,
}

/// The address to listen on: all interfaces at `PORT` when it is set, else
/// `LISTEN_ADDR`, else port 3000.
pub open spec fn listen_addr_spec(port: Option<Seq<char>>, listen: Option<Seq<char>>) -> Seq<char> {
    match port {
        Some(p) => "0.0.0.0:"@ + p,
        None => match listen {
            Some(l) => l,
            None => "0.0.0.0:3000"@,
        },
    }
}

/// An optional string by its view.
pub open spec fn opt_view(o: Option<String>) -> Option<Seq<char>> {
    match o {
        Some(s) => Some(s@),
        None => None,
    }
}

/// The address to listen on.
pub fn listen_addr_from(port: Option<String>, listen: Option<String>) -> (r: String)
    ensures
        r@ == listen_addr_spec(opt_view(port), opt_view(listen)),
{
    match port {
        Some(p) => {
            let mut s = String::from_str("0.0.0.0:");
            push_str(&mut s, p.as_str());
            s
        },
        None => match listen {
            Some(l) => l,
            None => String::from_str("0.0.0.0:3000"),
        },
    }
}

impl ApiConfig {
    /// The configuration from the values of `PORT`, `LISTEN_ADDR`,
    /// `TOKEN_ENCRYPTION_KEY` (base64 of 32 bytes) and `JWT_SECRET`.
    pub fn from_vars(
        port: Option<String>,
        listen: Option<String>,
        key_b64: Option<String>,
        jwt_secret: Option<String>,
    ) -> (r: Result<ApiConfig, ApiConfigError>)
        ensures
            key_b64 is None ==> r == Err::<ApiConfig, ApiConfigError>(ApiConfigError::MissingKey),
            key_b64 is Some && base64_decoding(key_b64->0@) is None ==> r == Err::<ApiConfig, ApiConfigError>(
                ApiConfigError::InvalidKey,
            ),
            key_b64 is Some && base64_decoding(key_b64->0@) is Some && base64_decoding(key_b64->0@)->0.len() != 32
                ==> r == Err::<ApiConfig, ApiConfigError>(ApiConfigError::WrongKeyLength),
            key_b64 is Some && base64_decoding(key_b64->0@) is Some && base64_decoding(key_b64->0@)->0.len() == 32
                && jwt_secret is None ==> r == Err::<ApiConfig, ApiConfigError>(ApiConfigError::MissingJwtSecret),
            r is Ok ==> {
                &&& r->Ok_0.jwt_secret == jwt_secret->0
                &&& r->Ok_0.listen_addr@ == listen_addr_spec(opt_view(port), opt_view(listen))
                &&& r->Ok_0.token_encryption_key@ == base64_decoding(key_b64->0@)->0
            },
            r is Ok <==> (key_b64 is Some && base64_decoding(key_b64->0@) is Some && base64_decoding(
                key_b64->0@,
            )->0.len() == 32 && jwt_secret is Some),
    {
        let listen_addr = listen_addr_from(port, listen);
        let key_text = match key_b64 {
            None => return Err(ApiConfigError::MissingKey),
            Some(k) => k,
        };
        let bytes = match base64_decode(key_text.as_str()) {
            None => return Err(ApiConfigError::InvalidKey),
            Some(b) => b,
        };
        if bytes.len() != 32 {
            return Err(ApiConfigError::WrongKeyLength);
        }
        let mut key: [u8; 32] = [0u8; 32];
        let mut i: usize = 0;
        while i < 32
            invariant
                bytes@.len() == 32,
                i <= 32,
                forall|j: int| 0 <= j < i ==> key@[j] == bytes@[j],
            decreases 32 - i,
        {
            key[i] = bytes[i];
            i = i + 1;
        }
        assert(key@ =~= bytes@);
        let jwt_secret = match jwt_secret {
            None => return Err(ApiConfigError::MissingJwtSecret),
            Some(j) => j,
        };
        Ok(ApiConfig { jwt_secret, listen_addr, token_encryption_key: key })
    }
}

} // verus!
