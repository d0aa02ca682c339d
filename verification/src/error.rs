//! The errors that a request is answered with.

use vstd::prelude::*;

verus! {

/// An error of a request.
#[derive(Debug)]
pub enum ApiError {
    /// The API key is missing or unknown.
    Unauthorized,
    /// The source of the request may not use the endpoint.
    Forbidden(String),
    /// A parameter is missing or out of range.
    Validation(String),
    /// The database failed; the text is for the log alone.
    Database(String),
}

/// What a request comes to.
pub type ApiResult<T> = Result<T, ApiError>;

/// The mathematical value of an [`ApiError`].
pub enum ApiErrorView {
    Unauthorized,
    Forbidden(Seq<char>),
    Validation(Seq<char>),
    Database(Seq<char>),
}

impl View for ApiError {
    type V = ApiErrorView;

    open spec fn view(&self) -> ApiErrorView {
        match self {
            ApiError::Unauthorized => ApiErrorView::Unauthorized,
            ApiError::Forbidden(message) => ApiErrorView::Forbidden(message@),
            ApiError::Validation(message) => ApiErrorView::Validation(message@),
            ApiError::Database(detail) => ApiErrorView::Database(detail@),
        }
    }
}

impl ApiErrorView {
    /// The HTTP status of the answer.
    pub open spec fn status(self) -> u16 {
        match self {
            ApiErrorView::Unauthorized => 401,
            ApiErrorView::Forbidden(_) => 403,
            ApiErrorView::Validation(_) => 422,
            ApiErrorView::Database(_) => 500,
        }
    }

    /// The stable code of the answer.
    pub open spec fn code(self) -> Seq<char> {
        match self {
            ApiErrorView::Unauthorized => "UNAUTHORIZED"@,
            ApiErrorView::Forbidden(_) => "FORBIDDEN"@,
            ApiErrorView::Validation(_) => "VALIDATION_ERROR"@,
            ApiErrorView::Database(_) => "DATABASE_ERROR"@,
        }
    }

    /// The message of the answer. That of a database failure has nothing of the failure.
    pub open spec fn message(self) -> Seq<char> {
        match self {
            ApiErrorView::Unauthorized => "API key is missing or invalid"@,
            ApiErrorView::Forbidden(message) => message,
            ApiErrorView::Validation(message) => message,
            ApiErrorView::Database(_) => "database query failed"@,
        }
    }
}

/// The answer to a request that failed: `{"error": {"code": .., "message": ..}}` under an
/// HTTP status.
#[derive(Debug)]
pub struct ErrorResponse {
    pub status: u16,
    pub code: &'static str,
    pub message: String,
}

impl ApiError {
    /// A parameter is missing or out of range.
    pub fn validation(msg: String) -> (err: Self)
        ensures
            err@ == ApiErrorView::Validation(msg@),
            err == ApiError::Validation(msg),
    {
        Self::Validation(msg)
    }

    /// The source of the request may not use the endpoint.
    pub fn forbidden(msg: String) -> (err: Self)
        ensures
            err@ == ApiErrorView::Forbidden(msg@),
            err == ApiError::Forbidden(msg),
    {
        Self::Forbidden(msg)
    }

    /// HTTP status and code of the answer.
    pub fn parts(&self) -> (parts: (u16, &'static str))
        ensures
            parts.0 == self@.status(),
            parts.1@ == self@.code(),
    {
        match self {
            Self::Unauthorized => (401, "UNAUTHORIZED"),
            Self::Forbidden(_) => (403, "FORBIDDEN"),
            Self::Validation(_) => (422, "VALIDATION_ERROR"),
            Self::Database(_) => (500, "DATABASE_ERROR"),
        }
    }

    /// The answer to the request.
    pub fn into_response(self) -> (response: ErrorResponse)
        ensures
            response.status == self@.status(),
            response.code@ == self@.code(),
            response.message@ == self@.message(),
            match self {
                ApiError::Unauthorized => response.status == 401 && response.code@
                    == "UNAUTHORIZED"@ && response.message@ == "API key is missing or invalid"@,
                ApiError::Forbidden(m) => response.status == 403 && response.code@ == "FORBIDDEN"@
                    && response.message@ == m@,
                ApiError::Validation(m) => response.status == 422 && response.code@
                    == "VALIDATION_ERROR"@ && response.message@ == m@,
                ApiError::Database(_) => response.status == 500 && response.code@
                    == "DATABASE_ERROR"@ && response.message@ == "database query failed"@,
            },
    {
        let (status, code) = self.parts();
        let message = match self {
            Self::Unauthorized => "API key is missing or invalid".to_owned(),
            Self::Forbidden(message) => message,
            Self::Validation(message) => message,
            Self::Database(_) => "database query failed".to_owned(),
        };
        ErrorResponse { status, code, message }
    }
}

/// What went wrong in the database never shows in an answer: all its failures are
/// answered alike.
pub proof fn law_database_detail_is_not_answered(a: Seq<char>, b: Seq<char>)
    ensures
        ApiErrorView::Database(a).status() == ApiErrorView::Database(b).status(),
        ApiErrorView::Database(a).code() == ApiErrorView::Database(b).code(),
        ApiErrorView::Database(a).message() == ApiErrorView::Database(b).message(),
{
}

/// An error is known by its variant and its text: two errors of one value are of one
/// variant and have one text.
pub proof fn law_error_is_its_variant_and_text(a: ApiError, b: ApiError)
    ensures
        a@ == b@ <==> match (a, b) {
            (ApiError::Unauthorized, ApiError::Unauthorized) => true,
            (ApiError::Forbidden(s), ApiError::Forbidden(t)) => s@ == t@,
            (ApiError::Validation(s), ApiError::Validation(t)) => s@ == t@,
            (ApiError::Database(s), ApiError::Database(t)) => s@ == t@,
            _ => false,
        },
        a@ is Unauthorized <==> a is Unauthorized,
        a matches ApiError::Forbidden(s) ==> (a@ matches ApiErrorView::Forbidden(m) && m == s@),
        a matches ApiError::Validation(s) ==> (a@ matches ApiErrorView::Validation(m) && m == s@),
        a matches ApiError::Database(s) ==> (a@ matches ApiErrorView::Database(m) && m == s@),
{
}

/// A refusal is answered with its own text, a bad parameter under 422 and a source that may not
/// use the endpoint under 403; a request without a known key under 401, a failure of the
/// database under 500.
pub proof fn law_answer_says_what_was_refused(text: Seq<char>)
    ensures
        ApiErrorView::Validation(text).message() == text,
        ApiErrorView::Validation(text).status() == 422,
        ApiErrorView::Validation(text).code() == "VALIDATION_ERROR"@,
        ApiErrorView::Forbidden(text).message() == text,
        ApiErrorView::Forbidden(text).status() == 403,
        ApiErrorView::Forbidden(text).code() == "FORBIDDEN"@,
        ApiErrorView::Unauthorized.message() == "API key is missing or invalid"@,
        ApiErrorView::Unauthorized.status() == 401,
        ApiErrorView::Unauthorized.code() == "UNAUTHORIZED"@,
        ApiErrorView::Database(text).message() == "database query failed"@,
        ApiErrorView::Database(text).status() == 500,
        ApiErrorView::Database(text).code() == "DATABASE_ERROR"@,
{
}

/// The HTTP status tells the code and the code the status.
pub proof fn law_status_and_code_agree(a: ApiErrorView, b: ApiErrorView)
    ensures
        a.status() == b.status() <==> a.code() == b.code(),
{
    reveal_strlit("UNAUTHORIZED");
    reveal_strlit("FORBIDDEN");
    reveal_strlit("VALIDATION_ERROR");
    reveal_strlit("DATABASE_ERROR");
    assert("UNAUTHORIZED"@.len() == 12);
    assert("FORBIDDEN"@.len() == 9);
    assert("VALIDATION_ERROR"@.len() == 16);
    assert("DATABASE_ERROR"@.len() == 14);
}

} // verus!
