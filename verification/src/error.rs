//! The application's errors and their (pt-BR) messages.
//!
//! Errors raised by the database, its pool, I/O and JSON serialization are
//! kept by their own message text.

use vstd::prelude::*;

use crate::normalizer::string_of;

verus! {

#[derive(Debug)]
pub enum AppError {
    Collect(String),
    Unavailable(String),
    External { cmd: String, msg: String },
    /// Text of a database error.
    Database(String),
    /// Text of a connection-pool error.
    Pool(String),
    /// Text of an I/O error.
    Io(String),
    /// Text of a serialization error.
    Serde(String),
    Config(String),
    Pdf(String),
    Other(String),
}

/// The message of an error, as shown to the user.
pub open spec fn error_message(e: AppError) -> Seq<char> {
    match e {
        AppError::Collect(s) => "Coleta falhou: "@ + s@,
        AppError::Unavailable(s) => "Métrica indisponível: "@ + s@,
        AppError::External { cmd, msg } => "Comando externo falhou ("@ + cmd@ + "): "@ + msg@,
        AppError::Database(s) => "Banco de dados: "@ + s@,
        AppError::Pool(s) => "Pool do banco: "@ + s@,
        AppError::Io(s) => "IO: "@ + s@,
        AppError::Serde(s) => "Serialização: "@ + s@,
        AppError::Config(s) => "Configuração inválida: "@ + s@,
        AppError::Pdf(s) => "PDF: "@ + s@,
        AppError::Other(s) => s@,
    }
}

fn prefixed(prefix: &str, s: &String) -> (r: String)
    ensures
        r@ == prefix@ + s@,
{
    let mut r = string_of(prefix);
    r.append(s.as_str());
    r
}

impl AppError {
    pub fn collect(msg: &str) -> (e: AppError)
        ensures
            e matches AppError::Collect(s) && s@ == msg@,
    {
        AppError::Collect(string_of(msg))
    }

    pub fn external(cmd: &str, msg: &str) -> (e: AppError)
        ensures
            e matches AppError::External { cmd: c, msg: m } && c@ == cmd@ && m@ == msg@,
    {
        AppError::External { cmd: string_of(cmd), msg: string_of(msg) }
    }

    pub fn unavailable(metric: &str) -> (e: AppError)
        ensures
            e matches AppError::Unavailable(s) && s@ == metric@,
    {
        AppError::Unavailable(string_of(metric))
    }

    pub fn other(msg: &str) -> (e: AppError)
        ensures
            e matches AppError::Other(s) && s@ == msg@,
    {
        AppError::Other(string_of(msg))
    }

    /// The message shown to the user.
    pub fn message(&self) -> (r: String)
        ensures
            r@ == error_message(*self),
    {
        match self {
            AppError::Collect(s) => prefixed("Coleta falhou: ", s),
            AppError::Unavailable(s) => prefixed("Métrica indisponível: ", s),
            AppError::External { cmd, msg } => {
                let mut r = prefixed("Comando externo falhou (", cmd);
                r.append("): ");
                r.append(msg.as_str());
                r
            },
            AppError::Database(s) => prefixed("Banco de dados: ", s),
            AppError::Pool(s) => prefixed("Pool do banco: ", s),
            AppError::Io(s) => prefixed("IO: ", s),
            AppError::Serde(s) => prefixed("Serialização: ", s),
            AppError::Config(s) => prefixed("Configuração inválida: ", s),
            AppError::Pdf(s) => prefixed("PDF: ", s),
            AppError::Other(s) => s.clone(),
        }
    }
}

/// Errors travel to the user interface as their message.
impl From<AppError> for String {
    fn from(e: AppError) -> (r: String)
        ensures
            r@ == error_message(e),
    {
        e.message()
    }
}

/// A spec value cannot build a `String`, so this conversion is specified on
/// `from` itself rather than through `from_spec`.
impl vstd::std_specs::convert::FromSpecImpl<AppError> for String {
    open spec fn obeys_from_spec() -> bool {
        false
    }

    open spec fn from_spec(e: AppError) -> String {
        choose|s: String| s@ == error_message(e)
    }
}

pub type Result<T> = std::result::Result<T, AppError>;

} // verus!
