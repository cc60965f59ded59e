use vstd::prelude::*;
use vstd::string::*;

use crate::search::str_eq;

verus! {

/// The kinds of failure a request handler reports.
#[derive(Clone, Copy, Debug, PartialEq, Eq, Structural)]
pub enum AppErrorType {
    InternalError,
    BadRequestError,
    UnauthorizedErorr,
    NotFoundError,
}

/// A failure reported to an API client.
#[derive(Debug)]
pub struct AppError {
    pub message: Option<String>,
    pub cause: Option<String>,
    pub error_type: AppErrorType,
}

pub fn apperror_500(message: Option<String>) -> (r: AppError)
    ensures
        r.message == message,
        r.cause is None,
        r.error_type == AppErrorType::InternalError,
{
    AppError { message, cause: None, error_type: AppErrorType::InternalError }
}

pub fn apperror_400(message: Option<String>) -> (r: AppError)
    ensures
        r.message == message,
        r.cause is None,
        r.error_type == AppErrorType::BadRequestError,
{
    AppError { message, cause: None, error_type: AppErrorType::BadRequestError }
}

pub open spec fn status_of(t: AppErrorType) -> u16 {
    match t {
        AppErrorType::NotFoundError => 404,
        AppErrorType::InternalError => 500,
        AppErrorType::BadRequestError => 400,
        AppErrorType::UnauthorizedErorr => 401,
    }
}

impl AppError {
    /// The message shown to the client: the error's own, or a generic one.
    pub fn message(&self) -> (r: String)
        ensures
            match self.message {
                Some(m) => r@ == m@,
                None => r@ == "An unexpected error has occured"@,
            },
    {
        match &self.message {
            Some(m) => m.clone(),
            None => String::from_str("An unexpected error has occured"),
        }
    }

    /// The HTTP status that reports the error.
    pub fn status_code(&self) -> (r: u16)
        ensures
            r == status_of(self.error_type),
    {
        match self.error_type {
            AppErrorType::NotFoundError => 404,
            AppErrorType::InternalError => 500,
            AppErrorType::BadRequestError => 400,
            AppErrorType::UnauthorizedErorr => 401,
        }
    }
}

/// The deployment the configuration is read for.
#[derive(Clone, Copy, Debug, PartialEq, Eq, Structural)]
pub enum Environment {
    Local,
    Production,
}

/// `s` in lower case, as `str::to_lowercase` gives it.
pub uninterp spec fn lower_of(s: Seq<char>) -> Seq<char>;

/// Relies on `str::to_lowercase`: the result depends on the characters
/// alone.
#[verifier::external_body]
fn lowercase(s: &str) -> (r: String)
    ensures
        r@ == lower_of(s@),
{
    s.to_lowercase()
}

pub open spec fn environment_of(lower: Seq<char>) -> Result<Environment, Seq<char>> {
    if lower == "local"@ {
        Ok(Environment::Local)
    } else if lower == "production"@ {
        Ok(Environment::Production)
    } else {
        Err(lower + " is not supported environment.Use local or production"@)
    }
}

pub open spec fn environment_view(r: Result<Environment, String>) -> Result<Environment, Seq<char>> {
    match r {
        Ok(e) => Ok(e),
        Err(m) => Err(m@),
    }
}

impl Environment {
    pub fn as_str(&self) -> (r: &'static str)
        ensures
            r@ == match self {
                Environment::Local => "local"@,
                Environment::Production => "production"@,
            },
    {
        match self {
            Environment::Local => "local",
            Environment::Production => "production",
        }
    }

    /// Reads an environment name, in any case.
    pub fn try_from(value: String) -> (r: Result<Environment, String>)
        ensures
            environment_view(r) == environment_of(lower_of(value@)),
    {
        Environment::from_lowercase(lowercase(value.as_str()))
    }

    /// Reads an environment name that is already in lower case.
    pub fn from_lowercase(lower: String) -> (r: Result<Environment, String>)
        ensures
            environment_view(r) == environment_of(lower@),
    {
        if str_eq(lower.as_str(), "local") {
            Ok(Environment::Local)
        } else if str_eq(lower.as_str(), "production") {
            Ok(Environment::Production)
        } else {
            Err(lower.concat(" is not supported environment.Use local or production"))
        }
    }
}

/// Why a login failed.
#[derive(Debug)]
pub enum AuthError {
    /// The user is unknown or the password does not match.
    InvalidCredential(String),
    /// Anything else went wrong on the way.
    UnexpectedError(String),
}

impl AuthError {
    pub fn status_code(&self) -> (r: u16)
        ensures
            r == match self {
                AuthError::InvalidCredential(_) => 401u16,
                AuthError::UnexpectedError(_) => 500u16,
            },
    {
        match self {
            AuthError::InvalidCredential(_) => 401,
            AuthError::UnexpectedError(_) => 500,
        }
    }
}

impl AuthError {
    /// The answer to a failed login: a refused password or unknown user is
    /// unauthorized, anything else an internal error, both reported as an
    /// unknown user.
    pub fn login_error(&self) -> (r: AppError)
        ensures
            r.error_type == match self {
                AuthError::InvalidCredential(_) => AppErrorType::UnauthorizedErorr,
                AuthError::UnexpectedError(_) => AppErrorType::InternalError,
            },
            r.cause is None,
            r.message matches Some(m) && m@ == "User not found"@,
    {
        let error_type = match self {
            AuthError::InvalidCredential(_) => AppErrorType::UnauthorizedErorr,
            AuthError::UnexpectedError(_) => AppErrorType::InternalError,
        };
        AppError { cause: None, error_type, message: Some(String::from_str("User not found")) }
    }
}

/// The answer to a failed registration: a refusal by the database (the
/// address is taken) or any other failure, with its description.
pub fn registration_error(refused_by_database: bool, detail: String) -> (r: AppError)
    ensures
        r.error_type == AppErrorType::InternalError,
        r.cause is None,
        refused_by_database ==> (r.message matches Some(m) && m@ == "email is already registered"@),
        !refused_by_database ==> (r.message matches Some(m) && m@ == detail@),
{
    if refused_by_database {
        AppError {
            cause: None,
            message: Some(String::from_str("email is already registered")),
            error_type: AppErrorType::InternalError,
        }
    } else {
        apperror_500(Some(detail))
    }
}

/// Why a subscription failed.
#[derive(Debug)]
pub enum SubscribeError {
    /// The form did not validate; the message says why.
    ValidationError(String),
    /// Storing the subscriber or sending the confirmation failed.
    UnexpectedError(String),
}

impl SubscribeError {
    pub fn status_code(&self) -> (r: u16)
        ensures
            r == match self {
                SubscribeError::ValidationError(_) => 400u16,
                SubscribeError::UnexpectedError(_) => 500u16,
            },
    {
        match self {
            SubscribeError::ValidationError(_) => 400,
            SubscribeError::UnexpectedError(_) => 500,
        }
    }
}

/// One line of cause text for each message of `causes`.
pub open spec fn causes_text(causes: Seq<Seq<char>>) -> Seq<char>
    decreases causes.len(),
{
    if causes.len() == 0 {
        Seq::empty()
    } else {
        causes_text(causes.drop_last()) + "Caused by:\n\t"@ + causes.last() + "\n"@
    }
}

/// An error's report: its own message and a blank line, then one
/// `Caused by:` entry per cause, outermost first.
pub open spec fn chain_text(messages: Seq<Seq<char>>) -> Seq<char> {
    messages[0] + "\n\n"@ + causes_text(messages.skip(1))
}

pub open spec fn message_views(v: Seq<String>) -> Seq<Seq<char>> {
    v.map_values(|s: String| s@)
}

/// The report of an error whose message and causes' messages are
/// `messages`, the error's own first.
pub fn error_chain_text(messages: &Vec<String>) -> (r: String)
    requires
        messages@.len() >= 1,
    ensures
        r@ == chain_text(message_views(messages@)),
{
    let ghost ms = message_views(messages@);
    let mut out = messages[0].clone();
    out.append("\n\n");
    let mut i: usize = 1;
    while i < messages.len()
        invariant
            1 <= i <= messages@.len(),
            ms == message_views(messages@),
            out@ == ms[0] + "\n\n"@ + causes_text(ms.subrange(1, i as int)),
        decreases messages@.len() - i,
    {
        out.append("Caused by:\n\t");
        out.append(messages[i].as_str());
        out.append("\n");
        assert(ms.subrange(1, i + 1).drop_last() =~= ms.subrange(1, i as int));
        assert(ms.subrange(1, i + 1).last() == messages@[i as int]@);
        assert(out@ =~= ms[0] + "\n\n"@ + causes_text(ms.subrange(1, i + 1)));
        i = i + 1;
    }
    assert(ms.subrange(1, i as int) =~= ms.skip(1));
    out
}

} // verus!
