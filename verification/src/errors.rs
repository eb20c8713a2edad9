//! Errors as the client gets them.

use crate::json::{field, string_field, Json, JsonObject, JsonV};
use crate::text;
use crate::text::{begins, occurs};
use vstd::prelude::*;

verus! {

/// An error response: an HTTP status, and what the body tells.
pub struct ErrorV {
    pub status: int,
    pub error_type: Seq<char>,
    pub message: Seq<char>,
}

/// An error response.
#[derive(Debug)]
pub struct ErrorResponse {
    pub status: u16,
    pub error_type: String,
    pub message: String,
}

/// The body of an error response.
pub open spec fn error_body(e: ErrorV) -> JsonV {
    JsonV::Object(
        Map::empty().insert("type"@, JsonV::Str("error"@)).insert(
            "error"@,
            JsonV::Object(
                Map::empty().insert("type"@, JsonV::Str(e.error_type)).insert(
                    "message"@,
                    JsonV::Str(e.message),
                ),
            ),
        ),
    )
}

impl ErrorResponse {
    pub open spec fn view(&self) -> ErrorV {
        ErrorV { status: self.status as int, error_type: self.error_type@, message: self.message@ }
    }

    pub fn new(status: u16, error_type: &str, message: &str) -> (r: ErrorResponse)
        ensures
            r.view() == (ErrorV {
                status: status as int,
                error_type: error_type@,
                message: message@,
            }),
    {
        ErrorResponse { status, error_type: error_type.to_owned(), message: message.to_owned() }
    }

    /// The body of the response.
    pub fn body(&self) -> (r: Json)
        ensures
            r.view() == error_body(self.view()),
    {
        let detail = JsonObject::new().with("type", Json::text(self.error_type.as_str())).with(
            "message",
            Json::text(self.message.as_str()),
        );
        Json::Object(
            JsonObject::new().with("type", Json::text("error")).with(
                "error",
                Json::Object(detail),
            ),
        )
    }
}

/// Errors of the upstream that the client's own messages cause: calls and results of tools that
/// do not match.
pub open spec fn client_validation(error: Seq<char>) -> bool {
    occurs(error, "TOOL_USE_RESULT_MISMATCH"@) || occurs(error, "Expected toolResult blocks"@)
}

/// Whether the client's own messages caused an error of the upstream.
pub fn default_is_client_validation_error(error: &str) -> (r: bool)
    ensures
        r == client_validation(error@),
{
    text::contains(error, "TOOL_USE_RESULT_MISMATCH") || text::contains(
        error,
        "Expected toolResult blocks",
    )
}

/// How an error of the upstream is told to the client.
///
/// What the client can mend is a bad request, so that it is not taken for a fault of the
/// upstream; the upstream's own words are passed on for nothing else.
pub open spec fn provider_error(error: Seq<char>) -> ErrorV {
    if occurs(error, "CONTENT_LENGTH_EXCEEDS_THRESHOLD"@) {
        ErrorV {
            status: 400,
            error_type: "invalid_request_error"@,
            message: "Context window is full. Reduce conversation history, system prompt, or tools."@,
        }
    } else if occurs(error, "Input is too long"@) {
        ErrorV {
            status: 400,
            error_type: "invalid_request_error"@,
            message: "Input is too long. Reduce the size of your messages."@,
        }
    } else if client_validation(error) {
        ErrorV {
            status: 400,
            error_type: "invalid_request_error"@,
            message: "Invalid message sequence: tool_use and tool_result blocks must be correctly paired and ordered."@,
        }
    } else {
        ErrorV {
            status: 502,
            error_type: "api_error"@,
            message: "上游 API 调用失败: "@ + error,
        }
    }
}

/// Tells an error of the upstream to the client.
pub fn map_provider_error(error: &str) -> (r: ErrorResponse)
    ensures
        r.view() == provider_error(error@),
{
    if text::contains(error, "CONTENT_LENGTH_EXCEEDS_THRESHOLD") {
        return ErrorResponse::new(
            400,
            "invalid_request_error",
            "Context window is full. Reduce conversation history, system prompt, or tools.",
        );
    }
    if text::contains(error, "Input is too long") {
        return ErrorResponse::new(
            400,
            "invalid_request_error",
            "Input is too long. Reduce the size of your messages.",
        );
    }
    if default_is_client_validation_error(error) {
        return ErrorResponse::new(
            400,
            "invalid_request_error",
            "Invalid message sequence: tool_use and tool_result blocks must be correctly paired and ordered.",
        );
    }
    let mut message = "上游 API 调用失败: ".to_owned();
    message.append(error);
    ErrorResponse { status: 502, error_type: "api_error".to_owned(), message }
}

/// An error of the upstream is never told as a success.
pub proof fn law_provider_error_is_no_success(error: Seq<char>)
    ensures
        provider_error(error).status >= 400,
        provider_error(error).status == 502 <==> !occurs(
            error,
            "CONTENT_LENGTH_EXCEEDS_THRESHOLD"@,
        ) && !occurs(error, "Input is too long"@) && !client_validation(error),
{
}

/// How a response of the upstream that cannot be read is told to the client.
pub open spec fn unreadable(error: Seq<char>) -> ErrorV {
    ErrorV { status: 502, error_type: "api_error"@, message: "读取响应失败: "@ + error }
}

/// Tells the client of a response of the upstream that cannot be read.
pub fn unreadable_response(error: &str) -> (r: ErrorResponse)
    ensures
        r.view() == unreadable(error@),
{
    let mut message = "读取响应失败: ".to_owned();
    message.append(error);
    ErrorResponse { status: 502, error_type: "api_error".to_owned(), message }
}

/// Why a request cannot be put to the upstream.
#[derive(Debug)]
pub enum ConversionError {
    UnsupportedModel(String),
    EmptyMessages,
    UnsupportedToolMapping(String),
    InvalidImage(String),
}

/// How a request that cannot be put to the upstream is answered.
pub open spec fn conversion_error(e: ConversionError) -> ErrorV {
    match e {
        ConversionError::UnsupportedModel(model) => ErrorV {
            status: 400,
            error_type: "invalid_request_error"@,
            message: "模型不支持: "@ + model@,
        },
        ConversionError::EmptyMessages => ErrorV {
            status: 400,
            error_type: "invalid_request_error"@,
            message: "消息列表为空"@,
        },
        ConversionError::UnsupportedToolMapping(message) => ErrorV {
            status: 400,
            error_type: "unsupported_tool_mapping"@,
            message: message@,
        },
        ConversionError::InvalidImage(message) => ErrorV {
            status: 400,
            error_type: "invalid_request_error"@,
            message: message@,
        },
    }
}

/// How a search loop answers a request that cannot be put to the upstream.
pub open spec fn loop_conversion_error(e: ConversionError) -> ErrorV {
    match e {
        ConversionError::UnsupportedModel(model) => ErrorV {
            status: 400,
            error_type: "invalid_request_error"@,
            message: "unsupported model: "@ + model@,
        },
        ConversionError::EmptyMessages => ErrorV {
            status: 400,
            error_type: "invalid_request_error"@,
            message: "message list is empty"@,
        },
        _ => conversion_error(e),
    }
}

/// Answers a request that cannot be put to the upstream.
pub fn map_conversion_error(e: &ConversionError) -> (r: ErrorResponse)
    ensures
        r.view() == conversion_error(*e),
{
    match e {
        ConversionError::UnsupportedModel(model) => {
            let mut message = "模型不支持: ".to_owned();
            message.append(model.as_str());
            ErrorResponse { status: 400, error_type: "invalid_request_error".to_owned(), message }
        },
        ConversionError::EmptyMessages => ErrorResponse::new(
            400,
            "invalid_request_error",
            "消息列表为空",
        ),
        ConversionError::UnsupportedToolMapping(message) => ErrorResponse::new(
            400,
            "unsupported_tool_mapping",
            message.as_str(),
        ),
        ConversionError::InvalidImage(message) => ErrorResponse::new(
            400,
            "invalid_request_error",
            message.as_str(),
        ),
    }
}

/// Answers a request of a search loop that cannot be put to the upstream.
pub fn map_loop_conversion_error(e: &ConversionError) -> (r: ErrorResponse)
    ensures
        r.view() == loop_conversion_error(*e),
{
    match e {
        ConversionError::UnsupportedModel(model) => {
            let mut message = "unsupported model: ".to_owned();
            message.append(model.as_str());
            ErrorResponse { status: 400, error_type: "invalid_request_error".to_owned(), message }
        },
        ConversionError::EmptyMessages => ErrorResponse::new(
            400,
            "invalid_request_error",
            "message list is empty",
        ),
        _ => map_conversion_error(e),
    }
}

/// The body of an error response tells its type and its message, each under its own name.
pub proof fn law_error_body_tells_the_error(e: ErrorResponse, r: Json)
    requires
        call_ensures(ErrorResponse::body, (&e,), r),
    ensures
        string_field(r.view(), "type"@) == Some("error"@),
        field(r.view(), "error"@) matches Some(detail) && string_field(detail, "type"@) == Some(
            e.error_type@,
        ) && string_field(detail, "message"@) == Some(e.message@),
{
    reveal_strlit("type");
    reveal_strlit("error");
    reveal_strlit("message");
    assert("type"@.len() == 4 && "error"@.len() == 5 && "message"@.len() == 7);
}

/// An error of the upstream that the client can mend is told as a bad request, in words of what
/// to mend: a context that is full before an input that is too long, and that before messages
/// whose tool calls and results do not match. Any other one is told as a bad gateway, and the
/// upstream's own words end the message.
pub proof fn law_mendable_errors_are_bad_requests(error: &str, r: ErrorResponse)
    requires
        call_ensures(map_provider_error, (error,), r),
    ensures
        ({
            let full = occurs(error@, "CONTENT_LENGTH_EXCEEDS_THRESHOLD"@);
            let long = occurs(error@, "Input is too long"@);
            let unmatched = occurs(error@, "TOOL_USE_RESULT_MISMATCH"@) || occurs(
                error@,
                "Expected toolResult blocks"@,
            );
            &&& full || long || unmatched ==> r.status == 400 && r.error_type@
                == "invalid_request_error"@
            &&& full ==> begins(r.message@, "Context window is full."@)
            &&& !full && long ==> begins(r.message@, "Input is too long."@)
            &&& !full && !long && unmatched ==> begins(r.message@, "Invalid message sequence:"@)
            &&& !full && !long && !unmatched ==> r.status == 502 && r.error_type@ == "api_error"@
                && r.message@.len() > error@.len() && r.message@.skip(
                r.message@.len() - error@.len(),
            ) == error@
        }),
{
    reveal_strlit("Context window is full.");
    reveal_strlit("Context window is full. Reduce conversation history, system prompt, or tools.");
    reveal_strlit("Input is too long.");
    reveal_strlit("Input is too long. Reduce the size of your messages.");
    reveal_strlit("Invalid message sequence:");
    reveal_strlit(
        "Invalid message sequence: tool_use and tool_result blocks must be correctly paired and ordered.",
    );
    reveal_strlit("上游 API 调用失败: ");
    let full = "Context window is full. Reduce conversation history, system prompt, or tools."@;
    let long = "Input is too long. Reduce the size of your messages."@;
    let unmatched =
        "Invalid message sequence: tool_use and tool_result blocks must be correctly paired and ordered."@;
    assert(full.subrange(0, 23) =~= "Context window is full."@);
    assert(long.subrange(0, 18) =~= "Input is too long."@);
    assert(unmatched.subrange(0, 25) =~= "Invalid message sequence:"@);
    let prefix = "上游 API 调用失败: "@;
    assert((prefix + error@).skip(prefix.len() as int) =~= error@);
}

/// Messages whose tool calls and results do not match are told by the words of the upstream, and
/// by nothing else.
pub proof fn law_mismatch_is_told_by_words(error: &str, r: bool)
    requires
        call_ensures(default_is_client_validation_error, (error,), r),
    ensures
        r <==> occurs(error@, "TOOL_USE_RESULT_MISMATCH"@) || occurs(
            error@,
            "Expected toolResult blocks"@,
        ),
{
}

/// A response that cannot be read is told as a bad gateway, and the reason ends the message.
pub proof fn law_unreadable_response_is_a_bad_gateway(error: &str, r: ErrorResponse)
    requires
        call_ensures(unreadable_response, (error,), r),
    ensures
        r.status == 502,
        r.error_type@ == "api_error"@,
        r.message@.len() > error@.len(),
        r.message@.skip(r.message@.len() - error@.len()) == error@,
{
    reveal_strlit("读取响应失败: ");
    let prefix = "读取响应失败: "@;
    assert((prefix + error@).skip(prefix.len() as int) =~= error@);
}

/// A text ends with another.
pub open spec fn ends_with(s: Seq<char>, tail: Seq<char>) -> bool {
    tail.len() <= s.len() && s.skip(s.len() - tail.len()) == tail
}

/// A request that cannot be put to the upstream is a bad request, in a search loop as well. The
/// message names the model that is not supported, and passes on what is wrong with an image or
/// with a tool; only what is wrong with a tool has a type of its own.
pub proof fn law_refused_requests_are_bad_requests(
    e: ConversionError,
    r: ErrorResponse,
    looped: ErrorResponse,
)
    requires
        call_ensures(map_conversion_error, (&e,), r),
        call_ensures(map_loop_conversion_error, (&e,), looped),
    ensures
        r.status == 400 && looped.status == 400,
        r.error_type@ == looped.error_type@,
        r.error_type@ == (if e is UnsupportedToolMapping {
            "unsupported_tool_mapping"@
        } else {
            "invalid_request_error"@
        }),
        e matches ConversionError::UnsupportedModel(model) ==> ends_with(r.message@, model@)
            && ends_with(looped.message@, model@) && begins(looped.message@, "unsupported model"@),
        e is EmptyMessages ==> r.message@ == "消息列表为空"@ && looped.message@
            == "message list is empty"@,
        e matches ConversionError::UnsupportedToolMapping(m) ==> r.message@ == m@
            && looped.message@ == m@,
        e matches ConversionError::InvalidImage(m) ==> r.message@ == m@ && looped.message@ == m@,
{
    if let ConversionError::UnsupportedModel(model) = e {
        let a = "模型不支持: "@;
        let b = "unsupported model: "@;
        assert((a + model@).skip(a.len() as int) =~= model@);
        assert((b + model@).skip(b.len() as int) =~= model@);
        reveal_strlit("unsupported model: ");
        reveal_strlit("unsupported model");
        assert((b + model@).subrange(0, 17) =~= "unsupported model"@);
    }
}

} // verus!
