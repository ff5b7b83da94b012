//! What can go wrong, how it is worded, and how it is answered.

use vstd::prelude::*;

use crate::json::{Json, JsonView};
use crate::status::StatusCode;
use crate::text::concat;

verus! {

/// An error of the service. The texts of the first two variants are those of the errors that the
/// file system and the TOML parser gave.
#[derive(Debug, Clone, PartialEq)]
pub enum AppError {
    ConfigRead(String),
    TomlParse(String),
    Config(String),
    Unauthorized,
    UnknownImage,
    InvalidImageReference,
    MissingBearerToken,
    InvalidBody,
    EngineRequest(String),
    EngineResponse(String),
    ContainerReplace(String),
}

/// What an error says.
pub enum ErrorView {
    ConfigRead(Seq<char>),
    TomlParse(Seq<char>),
    Config(Seq<char>),
    Unauthorized,
    UnknownImage,
    InvalidImageReference,
    MissingBearerToken,
    InvalidBody,
    EngineRequest(Seq<char>),
    EngineResponse(Seq<char>),
    ContainerReplace(Seq<char>),
}

impl View for AppError {
    type V = ErrorView;

    open spec fn view(&self) -> ErrorView {
        match *self {
            AppError::ConfigRead(s) => ErrorView::ConfigRead(s@),
            AppError::TomlParse(s) => ErrorView::TomlParse(s@),
            AppError::Config(s) => ErrorView::Config(s@),
            AppError::Unauthorized => ErrorView::Unauthorized,
            AppError::UnknownImage => ErrorView::UnknownImage,
            AppError::InvalidImageReference => ErrorView::InvalidImageReference,
            AppError::MissingBearerToken => ErrorView::MissingBearerToken,
            AppError::InvalidBody => ErrorView::InvalidBody,
            AppError::EngineRequest(s) => ErrorView::EngineRequest(s@),
            AppError::EngineResponse(s) => ErrorView::EngineResponse(s@),
            AppError::ContainerReplace(s) => ErrorView::ContainerReplace(s@),
        }
    }
}

impl ErrorView {
    /// The wording of the error.
    pub open spec fn message(self) -> Seq<char> {
        match self {
            ErrorView::ConfigRead(s) => "failed to read config file: "@ + s,
            ErrorView::TomlParse(s) => "failed to parse config file: "@ + s,
            ErrorView::Config(s) => "invalid configuration: "@ + s,
            ErrorView::Unauthorized => "unauthorized"@,
            ErrorView::UnknownImage => "unsupported image reference"@,
            ErrorView::InvalidImageReference => "invalid image reference encoding"@,
            ErrorView::MissingBearerToken => "missing bearer token"@,
            ErrorView::InvalidBody => "request body too large or malformed"@,
            ErrorView::EngineRequest(s) => "engine request failed: "@ + s,
            ErrorView::EngineResponse(s) => "engine returned an error: "@ + s,
            ErrorView::ContainerReplace(s) => "container replacement failed: "@ + s,
        }
    }

    /// The status that a request which met the error is answered with.
    pub open spec fn status(self) -> u16 {
        match self {
            ErrorView::Unauthorized | ErrorView::MissingBearerToken => 401,
            ErrorView::UnknownImage => 404,
            ErrorView::InvalidImageReference | ErrorView::InvalidBody | ErrorView::Config(_) => 400,
            ErrorView::ConfigRead(_) | ErrorView::TomlParse(_) => 500,
            ErrorView::EngineRequest(_)
            | ErrorView::EngineResponse(_)
            | ErrorView::ContainerReplace(_) => 502,
        }
    }

    /// The body of that answer: an object with the wording as its one member, `error`.
    pub open spec fn body(self) -> JsonView {
        JsonView::Object(map!["error"@ => JsonView::Text(self.message())])
    }
}

/// What a `Result` of the service says.
pub open spec fn outcome<T: View>(res: Result<T, AppError>) -> Result<T::V, ErrorView> {
    match res {
        Ok(value) => Ok(value@),
        Err(err) => Err(err@),
    }
}

/// The answer to a request that met an error.
#[derive(Debug, Clone, PartialEq)]
pub struct ErrorResponse {
    pub status: StatusCode,
    pub body: Json,
}

impl AppError {
    /// The wording of the error.
    pub fn to_string(&self) -> (res: String)
        ensures
            res@ == self@.message(),
    {
        match self {
            AppError::ConfigRead(s) => concat("failed to read config file: ", s.as_str()),
            AppError::TomlParse(s) => concat("failed to parse config file: ", s.as_str()),
            AppError::Config(s) => concat("invalid configuration: ", s.as_str()),
            AppError::Unauthorized => "unauthorized".to_owned(),
            AppError::UnknownImage => "unsupported image reference".to_owned(),
            AppError::InvalidImageReference => "invalid image reference encoding".to_owned(),
            AppError::MissingBearerToken => "missing bearer token".to_owned(),
            AppError::InvalidBody => "request body too large or malformed".to_owned(),
            AppError::EngineRequest(s) => concat("engine request failed: ", s.as_str()),
            AppError::EngineResponse(s) => concat("engine returned an error: ", s.as_str()),
            AppError::ContainerReplace(s) => concat("container replacement failed: ", s.as_str()),
        }
    }

    /// The status that a request which met the error is answered with.
    pub fn status_code(&self) -> (res: StatusCode)
        ensures
            res@ == self@.status(),
    {
        match self {
            AppError::Unauthorized | AppError::MissingBearerToken => StatusCode::of(401),
            AppError::UnknownImage => StatusCode::of(404),
            AppError::InvalidImageReference | AppError::InvalidBody | AppError::Config(_) => {
                StatusCode::of(400)
            },
            AppError::ConfigRead(_) | AppError::TomlParse(_) => StatusCode::of(500),
            AppError::EngineRequest(_)
            | AppError::EngineResponse(_)
            | AppError::ContainerReplace(_) => StatusCode::of(502),
        }
    }

    /// The answer to a request that met the error.
    pub fn into_response(self) -> (res: ErrorResponse)
        ensures
            res.status@ == self@.status(),
            res.body@ == self@.body(),
    {
        let mut members: Vec<(String, Json)> = Vec::new();
        members.push(("error".to_owned(), Json::Text(self.to_string())));
        proof {
            reveal_with_fuel(crate::json::entry_trees, 2);
            reveal_with_fuel(crate::json::members, 2);
            assert(crate::json::entry_trees(members@) =~= seq![
                ("error"@, JsonView::Text(self@.message())),
            ]);
            assert(crate::json::members(crate::json::entry_trees(members@))
                =~= map!["error"@ => JsonView::Text(self@.message())]);
        }
        ErrorResponse { status: self.status_code(), body: Json::Object(members) }
    }
}

// ---- Laws ----

/// The wording of an error tells its sort, and ends with the whole of the reason that the error
/// carries.
pub proof fn law_errors_are_worded(reason: Seq<char>)
    ensures
        ErrorView::ConfigRead(reason).message() == "failed to read config file: "@ + reason,
        ErrorView::TomlParse(reason).message() == "failed to parse config file: "@ + reason,
        ErrorView::Config(reason).message() == "invalid configuration: "@ + reason,
        ErrorView::Unauthorized.message() == "unauthorized"@,
        ErrorView::UnknownImage.message() == "unsupported image reference"@,
        ErrorView::InvalidImageReference.message() == "invalid image reference encoding"@,
        ErrorView::MissingBearerToken.message() == "missing bearer token"@,
        ErrorView::InvalidBody.message() == "request body too large or malformed"@,
        ErrorView::EngineRequest(reason).message() == "engine request failed: "@ + reason,
        ErrorView::EngineResponse(reason).message() == "engine returned an error: "@ + reason,
        ErrorView::ContainerReplace(reason).message() == "container replacement failed: "@ + reason,
{
}

/// The status of an error depends on its sort alone: 401 where the caller did not show the token,
/// 404 for an unknown image, 400 for what else is wrong with a request or with the configuration,
/// 502 for the engine and the replacement of containers, and 500 for files.
pub proof fn law_status_depends_on_the_sort(error: ErrorView)
    ensures
        error.status() == 401 <==> (error is Unauthorized || error is MissingBearerToken),
        error.status() == 404 <==> error is UnknownImage,
        error.status() == 400 <==> (error is InvalidImageReference || error is InvalidBody
            || error is Config),
        error.status() == 502 <==> (error is EngineRequest || error is EngineResponse
            || error is ContainerReplace),
        error.status() == 500 <==> (error is ConfigRead || error is TomlParse),
{
}

/// The body of an answer to an error is an object with one member, `error`, which is the wording.
pub proof fn law_body_is_the_wording(error: ErrorView, name: Seq<char>)
    ensures
        error.body().get_text("error"@) == Some(error.message()),
        name != "error"@ ==> error.body().get(name) is None,
{
}

/// An error says what it carries.
pub proof fn law_error_says_what_it_carries(error: AppError)
    ensures
        match error {
            AppError::ConfigRead(text) => error@ == ErrorView::ConfigRead(text@),
            AppError::TomlParse(text) => error@ == ErrorView::TomlParse(text@),
            AppError::Config(text) => error@ == ErrorView::Config(text@),
            AppError::Unauthorized => error@ is Unauthorized,
            AppError::UnknownImage => error@ is UnknownImage,
            AppError::InvalidImageReference => error@ is InvalidImageReference,
            AppError::MissingBearerToken => error@ is MissingBearerToken,
            AppError::InvalidBody => error@ is InvalidBody,
            AppError::EngineRequest(text) => error@ == ErrorView::EngineRequest(text@),
            AppError::EngineResponse(text) => error@ == ErrorView::EngineResponse(text@),
            AppError::ContainerReplace(text) => error@ == ErrorView::ContainerReplace(text@),
        },
{
}

/// What a result says is what its value, or its error, says.
pub proof fn law_result_says_what_it_carries<T: View>(value: T, error: AppError)
    ensures
        outcome(Ok::<T, AppError>(value)) == Ok::<T::V, ErrorView>(value@),
        outcome(Err::<T, AppError>(error)) == Err::<T::V, ErrorView>(error@),
{
}

} // verus!
