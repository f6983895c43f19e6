//! The decisions of the API server's handlers: request validation, the
//! answers built from stored rows and from the broker's replies.
use crate::config::EndPoint;
use crate::text::{group_thousands, grouped, int_digits};
use vstd::prelude::*;
use vstd::string::StrSliceExecFns;

verus! {

/// An error answer of the API.
#[derive(Debug)]
pub enum ApiError {
    /// 400, with a message.
    BadRequest(String),
    /// 401.
    Unauthorized,
    /// 404.
    NotFound,
    /// 409, with a message.
    Conflict(String),
    /// 500, with a message.
    Internal(String),
}

/// Whether `r` is a bad-request error with the message `m`.
pub open spec fn is_bad_request<T>(r: Result<T, ApiError>, m: Seq<char>) -> bool {
    match r {
        Err(ApiError::BadRequest(s)) => s@ == m,
        _ => false,
    }
}

/// The authenticated user: the id in a valid access token.
pub struct AuthUser(pub i64);

/// A request without a valid access token.
pub struct AuthError;

/// The text after a prefix, when the text starts with it.
fn strip_prefix<'a>(s: &'a str, prefix: &str) -> (r: Option<&'a str>)
    ensures
        r is Some <==> (prefix@.len() <= s@.len() && s@.take(prefix@.len() as int) == prefix@),
        r is Some ==> r->0@ == s@.skip(prefix@.len() as int),
{
    let n = prefix.unicode_len();
    let len = s.unicode_len();
    if n > len {
        return None;
    }
    let mut i: usize = 0;
    while i < n
        invariant
            n == prefix@.len(),
            len == s@.len(),
            n <= len,
            i <= n,
            forall|j: int| 0 <= j < i ==> s@[j] == prefix@[j],
        decreases n - i,
    {
        if s.get_char(i) != prefix.get_char(i) {
            assert(s@.take(n as int)[i as int] != prefix@[i as int]);
            return None;
        }
        i = i + 1;
    }
    assert(s@.take(n as int) =~= prefix@);
    let rest = s.substring_char(n, len);
    assert(rest@ =~= s@.skip(n as int));
    Some(rest)
}

/// The token of an `Authorization: Bearer <token>` header.
pub open spec fn bearer_token_spec(header: Seq<char>) -> Option<Seq<char>> {
    let p = "Bearer "@;
    if p.len() <= header.len() && header.take(p.len() as int) == p {
        Some(header.skip(p.len() as int))
    } else {
        None
    }
}

/// The token of an authorization header, or `AuthError` when it is not a
/// bearer token.
pub fn bearer_token(header: &str) -> (r: Result<String, AuthError>)
    ensures
        match r {
            Ok(t) => bearer_token_spec(header@) == Some(t@),
            Err(_) => bearer_token_spec(header@) is None,
        },
{
    match strip_prefix(header, "Bearer ") {
        Some(t) => Ok(String::from_str(t)),
        None => Err(AuthError),
    }
}

/// Checks a sign-up request: both fields are required, and the password
/// needs at least 6 characters.
pub fn validate_signup(email: &str, password: &str) -> (r: Result<(), ApiError>)
    ensures
        (email@.len() == 0 || password@.len() == 0) ==> is_bad_request(r, "email and password are required"@),
        (email@.len() > 0 && password@.len() > 0 && password@.len() < 6) ==> is_bad_request(
            r,
            "password must be at least 6 characters"@,
        ),
        r is Ok <==> (email@.len() > 0 && password@.len() >= 6),
{
    if email.is_empty() || password.is_empty() {
        return Err(ApiError::BadRequest(String::from_str("email and password are required")));
    }
    if password.unicode_len() < 6 {
        return Err(ApiError::BadRequest(String::from_str("password must be at least 6 characters")));
    }
    Ok(())
}

/// A request to set the number of a bond held.
pub struct SetHoldingRequest {
    pub quantity: i64,
}

/// A request to create a portfolio.
pub struct CreatePortfolioRequest {
    pub name: String,
}

/// Checks a request to create a portfolio: the name is required.
pub fn validate_create_portfolio(req: &CreatePortfolioRequest) -> (r: Result<(), ApiError>)
    ensures
        req.name@.len() == 0 ==> is_bad_request(r, "name is required"@),
        r is Ok <==> req.name@.len() > 0,
{
    if req.name.as_str().is_empty() {
        return Err(ApiError::BadRequest(String::from_str("name is required")));
    }
    Ok(())
}

/// The environment named in a request or a stored row: "production" is the
/// production environment, anything else the sandbox.
pub fn endpoint_from_name(name: &str) -> (r: EndPoint)
    ensures
        r == (if name@ == "production"@ {
            EndPoint::Prod
        } else {
            EndPoint::Sandbox
        }),
{
    if String::from_str(name) == String::from_str("production") {
        EndPoint::Prod
    } else {
        EndPoint::Sandbox
    }
}

/// The name under which an environment is stored.
pub fn endpoint_name(name: &str) -> (r: &'static str)
    ensures
        r@ == (if name@ == "production"@ {
            "production"@
        } else {
            "sandbox"@
        }),
{
    if String::from_str(name) == String::from_str("production") {
        "production"
    } else {
        "sandbox"
    }
}

/// A stored pair of broker credentials: token, account and environment.
pub type CredentialsRow = Option<(Option<String>, Option<String>, Option<String>)>;

/// The stored token of a row.
pub open spec fn row_token(row: CredentialsRow) -> Option<String> {
    match row {
        Some((t, _, _)) => t,
        None => None,
    }
}

/// The stored account of a row.
pub open spec fn row_account(row: CredentialsRow) -> Option<String> {
    match row {
        Some((_, a, _)) => a,
        None => None,
    }
}

/// The stored environment of a row.
pub open spec fn row_endpoint(row: CredentialsRow) -> Option<String> {
    match row {
        Some((_, _, e)) => e,
        None => None,
    }
}

/// Whether credentials are the token, the account and the environment of a
/// row (the sandbox when none is stored).
pub open spec fn credentials_of(c: (String, String, String), row: CredentialsRow) -> bool {
    let (t, a, e) = c;
    &&& Some(t) == row_token(row)
    &&& Some(a) == row_account(row)
    &&& e@ == (match row_endpoint(row) {
        Some(x) => x@,
        None => "sandbox"@,
    })
}

/// The broker credentials of a portfolio row: the token and account are
/// required, the environment defaults to the sandbox; a missing row is not
/// found.
pub fn credentials_from_row(row: CredentialsRow) -> (r: Result<(String, String, String), ApiError>)
    ensures
        row is None ==> r matches Err(ApiError::NotFound),
        row is Some && (row_token(row) is None || row_account(row) is None) ==> is_bad_request(
            r,
            "T-Invest not connected for this portfolio"@,
        ),
        r is Ok <==> (row_token(row) is Some && row_account(row) is Some),
        r is Ok ==> credentials_of(r->Ok_0, row),
{
    match row {
        Some((Some(t), Some(a), e)) => {
            let endpoint = match e {
                Some(e) => e,
                None => String::from_str("sandbox"),
            };
            Ok((t, a, endpoint))
        },
        Some(_) => Err(ApiError::BadRequest(String::from_str("T-Invest not connected for this portfolio"))),
        None => Err(ApiError::NotFound),
    }
}

/// The broker connection of a portfolio as the API shows it.
pub struct TInvestStatus {
    pub connected: bool,
    pub account_id: Option<String>,
    pub endpoint: Option<String>,
}

/// The connection status of a stored row: connected when both the token and
/// the account are stored.
pub fn status_from_row(row: CredentialsRow) -> (r: TInvestStatus)
    ensures
        r.connected == (row_token(row) is Some && row_account(row) is Some),
        r.connected ==> r.account_id == row_account(row) && r.endpoint == row_endpoint(row),
        !r.connected ==> r.account_id is None && r.endpoint is None,
{
    match row {
        Some((Some(_token), Some(account_id), endpoint)) => TInvestStatus {
            connected: true,
            account_id: Some(account_id),
            endpoint,
        },
        _ => TInvestStatus { connected: false, account_id: None, endpoint: None },
    }
}

/// The status after disconnecting.
pub fn disconnected() -> (r: TInvestStatus)
    ensures
        !r.connected,
        r.account_id is None,
        r.endpoint is None,
{
    TInvestStatus { connected: false, account_id: None, endpoint: None }
}

/// A request to connect a portfolio to a broker account.
pub struct ConnectRequest {
    pub token: String,
    pub account_id: String,
    pub endpoint: String,
}

/// Checks a connection request: the token and the account are required.
/// Gives the name of the environment to store.
pub fn validate_connect(req: &ConnectRequest) -> (r: Result<&'static str, ApiError>)
    ensures
        (req.token@.len() == 0 || req.account_id@.len() == 0) ==> is_bad_request(
            r,
            "token and account_id are required"@,
        ),
        r is Ok <==> (req.token@.len() > 0 && req.account_id@.len() > 0),
        r is Ok ==> r->Ok_0@ == (if req.endpoint@ == "production"@ {
            "production"@
        } else {
            "sandbox"@
        }),
{
    if req.token.as_str().is_empty() || req.account_id.as_str().is_empty() {
        return Err(ApiError::BadRequest(String::from_str("token and account_id are required")));
    }
    Ok(endpoint_name(req.endpoint.as_str()))
}

/// The status after connecting.
pub fn connected_status(account_id: String, endpoint: &str) -> (r: TInvestStatus)
    ensures
        r.connected,
        r.account_id == Some(account_id),
        r.endpoint is Some && r.endpoint->0@ == endpoint@,
{
    TInvestStatus { connected: true, account_id: Some(account_id), endpoint: Some(String::from_str(endpoint)) }
}

/// A request for the accounts behind a broker token.
pub struct FetchAccountsRequest {
    pub token: String,
    pub endpoint: String,
    /// The amount to put on a new sandbox account (1,000,000 by default).
    pub initial_amount: Option<i64>,
}

/// Checks a request for accounts: the token is required.
pub fn validate_fetch_accounts(req: &FetchAccountsRequest) -> (r: Result<(), ApiError>)
    ensures
        req.token@.len() == 0 ==> is_bad_request(r, "token is required"@),
        r is Ok <==> req.token@.len() > 0,
{
    if req.token.as_str().is_empty() {
        return Err(ApiError::BadRequest(String::from_str("token is required")));
    }
    Ok(())
}

/// The amount put on a new sandbox account.
pub fn sandbox_amount(req: &FetchAccountsRequest) -> (r: i64)
    ensures
        r == (match req.initial_amount {
            Some(a) => a,
            None => 1_000_000,
        }),
{
    match req.initial_amount {
        Some(a) => a,
        None => 1_000_000,
    }
}

/// A broker account as the API shows it.
pub struct AccountInfo {
    pub id: String,
    pub name: String,
    pub account_type: String,
}

/// The kinds of broker accounts.
#[derive(Clone, Copy, Debug, PartialEq, Eq, Structural)]
pub enum AccountKind {
    /// A brokerage account.
    Brokerage,
    /// An individual investment account.
    Iis,
    /// An investment piggy bank.
    InvestBox,
    /// Any other kind.
    Other,
}

/// The name of a kind of account.
pub open spec fn account_kind_name_spec(k: AccountKind) -> Seq<char> {
    match k {
        AccountKind::Brokerage => "Брокерский счёт"@,
        AccountKind::Iis => "ИИС"@,
        AccountKind::InvestBox => "Инвесткопилка"@,
        AccountKind::Other => "Другой"@,
    }
}

/// The name of a kind of account.
pub fn account_kind_name(k: AccountKind) -> (r: &'static str)
    ensures
        r@ == account_kind_name_spec(k),
{
    match k {
        AccountKind::Brokerage => "Брокерский счёт",
        AccountKind::Iis => "ИИС",
        AccountKind::InvestBox => "Инвесткопилка",
        AccountKind::Other => "Другой",
    }
}

/// An account of the broker's list: an unnamed account is called by its
/// kind.
pub fn account_info(id: String, name: String, kind: AccountKind) -> (r: AccountInfo)
    ensures
        r.id == id,
        r.name@ == (if name@.len() == 0 {
            account_kind_name_spec(kind)
        } else {
            name@
        }),
        r.account_type@ == account_kind_name_spec(kind),
{
    let kind_name = account_kind_name(kind);
    AccountInfo {
        id,
        name: if name.as_str().is_empty() {
            String::from_str(kind_name)
        } else {
            name
        },
        account_type: String::from_str(kind_name),
    }
}

/// The name of a new sandbox account holding `amount` roubles.
pub open spec fn sandbox_account_name_spec(amount: i64) -> Seq<char> {
    "Новый sandbox-счёт ("@ + grouped(int_digits(amount as int)) + " ₽)"@
}

/// A new sandbox account: named after its amount, with thousands separated
/// by spaces.
pub fn sandbox_account_info(id: String, amount: i64) -> (r: AccountInfo)
    ensures
        r.id == id,
        r.name@ == sandbox_account_name_spec(amount),
        r.account_type@ == "Sandbox"@,
{
    let mut name = String::from_str("Новый sandbox-счёт (");
    let digits = group_thousands(amount);
    name.append(digits.as_str());
    name.append(" ₽)");
    AccountInfo { id, name, account_type: String::from_str("Sandbox") }
}

/// A trading strategy as the API lists it.
pub struct StrategyInfo {
    pub id: String,
    pub name: String,
    pub description: String,
}

/// The strategies a portfolio can run.
pub open spec fn valid_strategy(name: Seq<char>) -> bool {
    name == "diversified_short_duration"@ || name == "high_yield_short"@ || name == "yield_maximizer"@
}

/// The strategies the API offers: conservative, aggressive and moderate.
pub fn list_strategies() -> (r: Vec<StrategyInfo>)
    ensures
        r@.len() == 3,
        r@[0].id@ == "diversified_short_duration"@,
        r@[1].id@ == "high_yield_short"@,
        r@[2].id@ == "yield_maximizer"@,
        r@[0].name@ == "Консервативная"@,
        r@[1].name@ == "Агрессивная"@,
        r@[2].name@ == "Умеренная"@,
{
    let mut v: Vec<StrategyInfo> = Vec::new();
    v.push(StrategyInfo {
        id: String::from_str("diversified_short_duration"),
        name: String::from_str("Консервативная"),
        description: String::from_str("Диверсифицированный портфель коротких облигаций (3–18 мес.) с дисконтом к номиналу. Не более 15 % на одну бумагу, автоматический стоп-лосс при падении цены ниже 70 %. Низкий риск, стабильная доходность."),
    });
    v.push(StrategyInfo {
        id: String::from_str("high_yield_short"),
        name: String::from_str("Агрессивная"),
        description: String::from_str("Максимальная доходность на коротких облигациях (до 1 года) с XIRR ≥ 10 %. Не более 8 % на одну бумагу, стоп-лосс при падении ниже 70 %. Высокая доходность, повышенный риск."),
    });
    v.push(StrategyInfo {
        id: String::from_str("yield_maximizer"),
        name: String::from_str("Умеренная"),
        description: String::from_str("Сбалансированный подход: покупка облигаций с оптимальным XIRR, не более 5 % на бумагу. Удержание до погашения, динамическое снижение порога при избытке кэша. Баланс между доходностью и контролем рисков."),
    });
    v
}

/// A request to assign a strategy to a portfolio.
pub struct SetStrategyRequest {
    pub strategy_name: String,
}

/// The message refusing an unknown strategy.
pub open spec fn unknown_strategy_message(name: Seq<char>) -> Seq<char> {
    "unknown strategy '"@ + name
        + "'. Valid: [\"diversified_short_duration\", \"high_yield_short\", \"yield_maximizer\"]"@
}

/// Checks that a strategy exists.
pub fn validate_strategy(req: &SetStrategyRequest) -> (r: Result<(), ApiError>)
    ensures
        r is Ok <==> valid_strategy(req.strategy_name@),
        !valid_strategy(req.strategy_name@) ==> is_bad_request(r, unknown_strategy_message(req.strategy_name@)),
{
    let name = &req.strategy_name;
    if *name == String::from_str("diversified_short_duration") || *name == String::from_str("high_yield_short")
        || *name == String::from_str("yield_maximizer") {
        return Ok(());
    }
    let mut msg = String::from_str("unknown strategy '");
    msg.append(name.as_str());
    msg.append("'. Valid: [\"diversified_short_duration\", \"high_yield_short\", \"yield_maximizer\"]");
    Err(ApiError::BadRequest(msg))
}

/// The broker credentials stored for a user: the token and account are
/// required, the environment defaults to the sandbox.
pub fn user_credentials_from_row(row: CredentialsRow) -> (r: Result<(String, String, String), ApiError>)
    ensures
        (row_token(row) is None || row_account(row) is None) ==> is_bad_request(r, "T-Invest not connected"@),
        r is Ok <==> (row_token(row) is Some && row_account(row) is Some),
        r is Ok ==> credentials_of(r->Ok_0, row),
{
    match row {
        Some((Some(t), Some(a), e)) => {
            let endpoint = match e {
                Some(e) => e,
                None => String::from_str("sandbox"),
            };
            Ok((t, a, endpoint))
        },
        _ => Err(ApiError::BadRequest(String::from_str("T-Invest not connected"))),
    }
}

/// The strategies a portfolio can run.
#[derive(Clone, Copy, Debug, PartialEq, Eq, Structural)]
pub enum StrategyKind {
    DiversifiedShortDuration,
    HighYieldShort,
    YieldMaximizer,
}

/// The strategy assigned to a portfolio: none assigned, or an unknown name,
/// is a bad request.
pub fn strategy_kind(name: Option<&str>) -> (r: Result<StrategyKind, ApiError>)
    ensures
        name is None ==> is_bad_request(r, "no strategy assigned to this portfolio"@),
        name is Some && !valid_strategy(name->0@) ==> is_bad_request(r, "unknown strategy"@),
        r is Ok <==> (name is Some && valid_strategy(name->0@)),
        r is Ok ==> r->Ok_0 == (if name->0@ == "diversified_short_duration"@ {
            StrategyKind::DiversifiedShortDuration
        } else if name->0@ == "high_yield_short"@ {
            StrategyKind::HighYieldShort
        } else {
            StrategyKind::YieldMaximizer
        }),
{
    let name = match name {
        None => return Err(ApiError::BadRequest(String::from_str("no strategy assigned to this portfolio"))),
        Some(n) => String::from_str(n),
    };
    if name == String::from_str("diversified_short_duration") {
        Ok(StrategyKind::DiversifiedShortDuration)
    } else if name == String::from_str("high_yield_short") {
        Ok(StrategyKind::HighYieldShort)
    } else if name == String::from_str("yield_maximizer") {
        Ok(StrategyKind::YieldMaximizer)
    } else {
        Err(ApiError::BadRequest(String::from_str("unknown strategy")))
    }
}

/// The value of the `authorization` header the broker's API expects:
/// `Bearer <token>`.
pub fn authorization_value(token: &str) -> (r: String)
    ensures
        r@ == "Bearer "@ + token@,
{
    let mut v = String::from_str("Bearer ");
    v.append(token);
    v
}

/// Reading the token back from an authorization value gives the token.
pub proof fn law_bearer_round_trip(token: Seq<char>)
    ensures
        bearer_token_spec("Bearer "@ + token) == Some(token),
{
    let p = "Bearer "@;
    let h = p + token;
    assert(h.take(p.len() as int) =~= p);
    assert(h.skip(p.len() as int) =~= token);
}

} // verus!
