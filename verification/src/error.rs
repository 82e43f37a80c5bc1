//! The library's error type and the response that each error becomes.
use vstd::prelude::*;

use crate::number::{dec_nat, format_u64};

verus! {

/// What can go wrong while serving a request.
#[derive(Debug, Clone)]
pub enum AppError {
    NotFound,
    /// No signed-in session: the browser is sent to the login page.
    Unauthorized,
    /// A login with an unknown username or a wrong password.
    InvalidCredentials,
    Forbidden,
    Validation(String),
    Config(String),
    Internal(String),
}

pub type AppResult<T> = Result<T, AppError>;

/// How an error is answered: a redirect, or an HTML page with a status.
#[derive(Debug, Clone)]
pub enum ErrorResponse {
    Redirect(String),
    Page { status: u16, body: String },
}

impl AppError {
    /// The text of the error, as its `Display` shows it.
    pub open spec fn message_spec(&self) -> Seq<char> {
        match self {
            AppError::NotFound => "not found"@,
            AppError::Unauthorized => "unauthorized"@,
            AppError::InvalidCredentials => "invalid credentials"@,
            AppError::Forbidden => "forbidden"@,
            AppError::Validation(m) => m@,
            AppError::Config(m) => m@,
            AppError::Internal(m) => m@,
        }
    }

    /// The HTTP status of the page that answers an error other than
    /// `Unauthorized`, which is answered by a redirect.
    pub open spec fn status_spec(&self) -> u16 {
        match self {
            AppError::NotFound => 404,
            AppError::InvalidCredentials => 401,
            AppError::Forbidden => 403,
            AppError::Validation(_) | AppError::Config(_) => 400,
            AppError::Internal(_) => 500,
            AppError::Unauthorized => 303,
        }
    }

    pub open spec fn page_body_spec(status: u16, message: Seq<char>) -> Seq<char> {
        "<html><body><h1>"@ + dec_nat(status as nat) + "</h1><p>"@ + message + "</p></body></html>"@
    }

    pub fn message(&self) -> (r: String)
        ensures
            r@ == self.message_spec(),
    {
        match self {
            AppError::NotFound => "not found".to_owned(),
            AppError::Unauthorized => "unauthorized".to_owned(),
            AppError::InvalidCredentials => "invalid credentials".to_owned(),
            AppError::Forbidden => "forbidden".to_owned(),
            AppError::Validation(m) => m.clone(),
            AppError::Config(m) => m.clone(),
            AppError::Internal(m) => m.clone(),
        }
    }

    pub fn status_code(&self) -> (r: u16)
        ensures
            r == self.status_spec(),
    {
        match self {
            AppError::NotFound => 404,
            AppError::InvalidCredentials => 401,
            AppError::Forbidden => 403,
            AppError::Validation(_) | AppError::Config(_) => 400,
            AppError::Internal(_) => 500,
            AppError::Unauthorized => 303,
        }
    }

    /// The answer to the error: `Unauthorized` (no session) sends the browser
    /// to the login page; every other error, a failed login among them, is an
    /// HTML page with its status and text.
    pub fn to_response(&self) -> (r: ErrorResponse)
        ensures
            self is Unauthorized ==> (r matches ErrorResponse::Redirect(loc) && loc@ == "/login"@),
            !(self is Unauthorized) ==> (r matches ErrorResponse::Page { status, body } && status
                == self.status_spec() && body@ == Self::page_body_spec(status, self.message_spec())),
    {
        match self {
            AppError::Unauthorized => ErrorResponse::Redirect("/login".to_owned()),
            _ => {
                let status = self.status_code();
                let mut body = "<html><body><h1>".to_owned();
                let code = format_u64(status as u64);
                body.append(code.as_str());
                body.append("</h1><p>");
                let msg = self.message();
                body.append(msg.as_str());
                body.append("</p></body></html>");
                ErrorResponse::Page { status, body }
            },
        }
    }
}

/// A failed login is answered with a 401 page, not with the redirect that
/// a missing session gets.
pub proof fn lemma_failed_login_answers_401(e: AppError)
    requires
        e is InvalidCredentials,
    ensures
        !(e is Unauthorized),
        e.status_spec() == 401,
        e.message_spec() == "invalid credentials"@,
{
}

} // verus!
