//! Error codes shared with the server and the SDK's error value.
use vstd::prelude::*;

use crate::text::{concat2, concat3, i64_to_decimal, owned, signed_decimal};

verus! {

/// A numeric SDK error code.
#[derive(Debug, Clone, Copy, PartialEq, Eq, Hash, Structural)]
pub struct ErrorCode(pub i32);

/// The family an error code belongs to.
#[derive(Debug, Clone, Copy, PartialEq, Eq, Structural)]
pub enum ErrorCategory {
    Common,
    User,
    Message,
    Conversation,
    Group,
    Unknown,
}

/// The category of a numeric code: the hundred-block it falls in.
pub open spec fn spec_category(code: i32) -> ErrorCategory {
    if 10000 <= code <= 10099 {
        ErrorCategory::Common
    } else if 10100 <= code <= 10199 {
        ErrorCategory::User
    } else if 10200 <= code <= 10299 {
        ErrorCategory::Message
    } else if 10300 <= code <= 10399 {
        ErrorCategory::Conversation
    } else if 10400 <= code <= 10499 {
        ErrorCategory::Group
    } else {
        ErrorCategory::Unknown
    }
}

impl ErrorCode {
    pub fn network() -> (r: ErrorCode)
        ensures
            r.0 == 10000,
    {
        ErrorCode(10000)
    }
    pub fn network_timeout() -> (r: ErrorCode)
        ensures
            r.0 == 10001,
    {
        ErrorCode(10001)
    }
    pub fn args() -> (r: ErrorCode)
        ensures
            r.0 == 10002,
    {
        ErrorCode(10002)
    }
    pub fn ctx_deadline_exceeded() -> (r: ErrorCode)
        ensures
            r.0 == 10003,
    {
        ErrorCode(10003)
    }
    pub fn unknown() -> (r: ErrorCode)
        ensures
            r.0 == 10005,
    {
        ErrorCode(10005)
    }
    pub fn sdk_internal() -> (r: ErrorCode)
        ensures
            r.0 == 10006,
    {
        ErrorCode(10006)
    }
    pub fn no_update() -> (r: ErrorCode)
        ensures
            r.0 == 10007,
    {
        ErrorCode(10007)
    }
    pub fn sdk_not_init() -> (r: ErrorCode)
        ensures
            r.0 == 10008,
    {
        ErrorCode(10008)
    }
    pub fn sdk_not_login() -> (r: ErrorCode)
        ensures
            r.0 == 10009,
    {
        ErrorCode(10009)
    }
    pub fn user_id_not_found() -> (r: ErrorCode)
        ensures
            r.0 == 10100,
    {
        ErrorCode(10100)
    }
    pub fn login_out() -> (r: ErrorCode)
        ensures
            r.0 == 10101,
    {
        ErrorCode(10101)
    }
    pub fn login_repeat() -> (r: ErrorCode)
        ensures
            r.0 == 10102,
    {
        ErrorCode(10102)
    }
    pub fn file_not_found() -> (r: ErrorCode)
        ensures
            r.0 == 10200,
    {
        ErrorCode(10200)
    }
    pub fn msg_decompression() -> (r: ErrorCode)
        ensures
            r.0 == 10201,
    {
        ErrorCode(10201)
    }
    pub fn msg_decode_binary_ws() -> (r: ErrorCode)
        ensures
            r.0 == 10202,
    {
        ErrorCode(10202)
    }
    pub fn msg_binary_type_not_support() -> (r: ErrorCode)
        ensures
            r.0 == 10203,
    {
        ErrorCode(10203)
    }
    pub fn msg_repeat() -> (r: ErrorCode)
        ensures
            r.0 == 10204,
    {
        ErrorCode(10204)
    }
    pub fn msg_content_type_not_support() -> (r: ErrorCode)
        ensures
            r.0 == 10205,
    {
        ErrorCode(10205)
    }
    pub fn msg_has_no_seq() -> (r: ErrorCode)
        ensures
            r.0 == 10206,
    {
        ErrorCode(10206)
    }
    pub fn msg_has_deleted() -> (r: ErrorCode)
        ensures
            r.0 == 10207,
    {
        ErrorCode(10207)
    }
    pub fn not_support_opt() -> (r: ErrorCode)
        ensures
            r.0 == 10301,
    {
        ErrorCode(10301)
    }
    pub fn not_support_type() -> (r: ErrorCode)
        ensures
            r.0 == 10302,
    {
        ErrorCode(10302)
    }
    pub fn unread_count() -> (r: ErrorCode)
        ensures
            r.0 == 10303,
    {
        ErrorCode(10303)
    }
    pub fn group_id_not_found() -> (r: ErrorCode)
        ensures
            r.0 == 10400,
    {
        ErrorCode(10400)
    }
    pub fn group_type() -> (r: ErrorCode)
        ensures
            r.0 == 10401,
    {
        ErrorCode(10401)
    }

    pub fn new(code: i32) -> (r: ErrorCode)
        ensures
            r.0 == code,
    {
        ErrorCode(code)
    }

    pub fn as_i32(self) -> (r: i32)
        ensures
            r == self.0,
    {
        self.0
    }

    pub fn category(self) -> (r: ErrorCategory)
        ensures
            r == spec_category(self.0),
    {
        let c = self.0;
        if 10000 <= c && c <= 10099 {
            ErrorCategory::Common
        } else if 10100 <= c && c <= 10199 {
            ErrorCategory::User
        } else if 10200 <= c && c <= 10299 {
            ErrorCategory::Message
        } else if 10300 <= c && c <= 10399 {
            ErrorCategory::Conversation
        } else if 10400 <= c && c <= 10499 {
            ErrorCategory::Group
        } else {
            ErrorCategory::Unknown
        }
    }

    /// The same code from a raw number.
    pub fn from_i32(value: i32) -> (r: ErrorCode)
        ensures
            r.0 == value,
    {
        ErrorCode(value)
    }
}

impl From<i32> for ErrorCode {
    fn from(value: i32) -> (r: ErrorCode) {
        ErrorCode(value)
    }
}

impl vstd::std_specs::convert::FromSpecImpl<i32> for ErrorCode {
    open spec fn obeys_from_spec() -> bool {
        true
    }

    open spec fn from_spec(v: i32) -> ErrorCode {
        ErrorCode(v)
    }
}

/// What an error holds: its code, its message and an optional detail.
pub struct ErrorView {
    pub code: i32,
    pub message: Seq<char>,
    pub detail: Option<Seq<char>>,
}

/// An SDK error: a code, a message, and an optional detail.
#[derive(Debug, Clone, PartialEq, Eq)]
pub struct OpenImError {
    code: ErrorCode,
    message: String,
    detail: Option<String>,
}

impl View for OpenImError {
    type V = ErrorView;

    closed spec fn view(&self) -> ErrorView {
        ErrorView {
            code: self.code.0,
            message: self.message@,
            detail: match self.detail {
                Some(d) => Some(d@),
                None => None,
            },
        }
    }
}

/// An error value with the given code and message and no detail.
pub open spec fn error_of(code: i32, message: Seq<char>) -> ErrorView {
    ErrorView { code, message, detail: None }
}

/// The message "<field> is empty" used when a required value is missing.
pub open spec fn empty_message(field: Seq<char>) -> Seq<char> {
    field + " is empty"@
}

/// The rendering "<code>: <message>".
pub open spec fn spec_display(e: ErrorView) -> Seq<char> {
    signed_decimal(e.code as int) + ": "@ + e.message
}

impl OpenImError {
    pub fn new(code: ErrorCode, message: &str) -> (r: OpenImError)
        ensures
            r@ == error_of(code.0, message@),
    {
        OpenImError { code, message: owned(message), detail: None }
    }

    /// Builds an error that takes ownership of its message.
    pub fn with_message(code: ErrorCode, message: String) -> (r: OpenImError)
        ensures
            r@ == error_of(code.0, message@),
    {
        OpenImError { code, message, detail: None }
    }

    pub fn with_detail(self, detail: &str) -> (r: OpenImError)
        ensures
            r@ == (ErrorView { detail: Some(detail@), ..self@ }),
    {
        OpenImError { detail: Some(owned(detail)), ..self }
    }

    pub fn code(&self) -> (r: ErrorCode)
        ensures
            r.0 == self@.code,
    {
        self.code
    }

    pub fn message(&self) -> (r: &str)
        ensures
            r@ == self@.message,
    {
        self.message.as_str()
    }

    pub fn detail(&self) -> (r: Option<&str>)
        ensures
            r matches Some(d) ==> self@.detail == Some(d@),
            r is None <==> self@.detail is None,
    {
        match &self.detail {
            Some(d) => Some(d.as_str()),
            None => None,
        }
    }

    pub fn category(&self) -> (r: ErrorCategory)
        ensures
            r == spec_category(self@.code),
    {
        self.code.category()
    }

    /// An argument error.
    pub fn args(message: &str) -> (r: OpenImError)
        ensures
            r@ == error_of(10002, message@),
    {
        OpenImError::new(ErrorCode(10002), message)
    }

    /// An internal SDK error.
    pub fn sdk_internal(message: &str) -> (r: OpenImError)
        ensures
            r@ == error_of(10006, message@),
    {
        OpenImError::new(ErrorCode(10006), message)
    }

    /// A decompression failure.
    pub fn msg_decompression(message: &str) -> (r: OpenImError)
        ensures
            r@ == error_of(10201, message@),
    {
        OpenImError::new(ErrorCode(10201), message)
    }

    /// A failure to decode a binary websocket frame.
    pub fn msg_decode_binary_ws(message: &str) -> (r: OpenImError)
        ensures
            r@ == error_of(10202, message@),
    {
        OpenImError::new(ErrorCode(10202), message)
    }

    /// The error's text: its code in decimal, a colon and a space, and its
    /// message.
    pub fn display(&self) -> (r: String)
        ensures
            r@ == spec_display(self@),
    {
        let code = i64_to_decimal(self.code.0 as i64);
        concat3(code.as_str(), ": ", self.message.as_str())
    }
}

/// The error "<field> is empty" with the argument code.
pub fn empty_field_error(field: &str) -> (r: OpenImError)
    ensures
        r@ == error_of(10002, empty_message(field@)),
{
    let message = concat2(field, " is empty");
    OpenImError::with_message(ErrorCode(10002), message)
}

/// Fails with "<field> is empty" exactly when `value` is empty.
pub fn ensure_not_empty(value: &str, field: &str) -> (r: Result<(), OpenImError>)
    ensures
        r is Ok <==> value@.len() > 0,
        r matches Err(e) ==> e@ == error_of(10002, empty_message(field@)),
{
    if value.is_empty() {
        Err(empty_field_error(field))
    } else {
        Ok(())
    }
}

/// The first error that `check` finds among `items`, front to back.
pub open spec fn first_error<T>(items: Seq<T>, check: spec_fn(T) -> Option<ErrorView>) -> Option<
    ErrorView,
>
    decreases items.len(),
{
    if items.len() == 0 {
        None
    } else {
        match check(items[0]) {
            Some(e) => Some(e),
            None => first_error(items.drop_first(), check),
        }
    }
}

/// Skipping items that pass the check does not change the first error.
pub proof fn lemma_first_error_skip<T>(items: Seq<T>, check: spec_fn(T) -> Option<ErrorView>, i: int)
    requires
        0 <= i < items.len(),
        first_error(items, check) == first_error(items.skip(i), check),
        check(items[i]) is None,
    ensures
        first_error(items, check) == first_error(items.skip(i + 1), check),
{
    assert(items.skip(i).drop_first() =~= items.skip(i + 1));
}

/// When no item has an error, each item passes the check.
pub proof fn lemma_first_error_none<T>(items: Seq<T>, check: spec_fn(T) -> Option<ErrorView>)
    requires
        first_error(items, check) is None,
    ensures
        forall|i: int| 0 <= i < items.len() ==> (#[trigger] check(items[i])) is None,
    decreases items.len(),
{
    if items.len() > 0 {
        lemma_first_error_none(items.drop_first(), check);
        assert forall|i: int| 0 <= i < items.len() implies (#[trigger] check(items[i])) is None by {
            if i > 0 {
                assert(items.drop_first()[i - 1] == items[i]);
            }
        }
    }
}

/// The error for a missing first or second identifier of a pair.
pub open spec fn pair_error(first: Seq<char>, first_field: Seq<char>, second: Seq<char>, second_field: Seq<char>) -> Option<ErrorView> {
    if first.len() == 0 {
        Some(error_of(10002, empty_message(first_field)))
    } else if second.len() == 0 {
        Some(error_of(10002, empty_message(second_field)))
    } else {
        None
    }
}

/// Fails when either identifier of a pair is empty, the first one first.
pub fn ensure_pair(first: &str, first_field: &str, second: &str, second_field: &str) -> (r: Result<(), OpenImError>)
    ensures
        r is Ok <==> pair_error(first@, first_field@, second@, second_field@) is None,
        r matches Err(e) ==> Some(e@) == pair_error(first@, first_field@, second@, second_field@),
{
    ensure_not_empty(first, first_field)?;
    ensure_not_empty(second, second_field)
}

/// The error that a websocket reply with a non-zero code stands for.
pub fn ws_error(err_code: i32, err_msg: &str) -> (r: Option<OpenImError>)
    ensures
        r is None <==> err_code == 0,
        r matches Some(e) ==> e@ == error_of(err_code, err_msg@),
{
    if err_code == 0 {
        None
    } else {
        Some(OpenImError::new(ErrorCode::from_i32(err_code), err_msg))
    }
}

} // verus!
