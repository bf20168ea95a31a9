//! The errors of the library.
use crate::normalize::NormalizeError;
use crate::text::joined2;
use vstd::prelude::*;

verus! {

/// An error of Arrow, which keeps its own text.
#[verifier::external_type_specification]
#[verifier::external_body]
pub struct ExArrowError(arrow::error::ArrowError);

/// Why a driver or a source gave up.
#[derive(Debug, Clone, PartialEq, Eq)]
pub enum RuntimeError {
    /// An outside service failed.
    Io { reason: String },
    /// The receiving end of a channel is gone.
    ChannelSend,
    /// The sending end of a channel is gone.
    ChannelReceive,
}

impl RuntimeError {
    /// Whether this is an outside failure with the given reason.
    pub open spec fn is_io(self, reason: Seq<char>) -> bool {
        match self {
            RuntimeError::Io { reason: text } => text@ == reason,
            _ => false,
        }
    }

    /// An outside failure with the given reason.
    pub fn io(reason: &str) -> (error: Self)
        ensures
            error.is_io(reason@),
    {
        RuntimeError::Io { reason: reason.to_owned() }
    }
}

/// Why a tick could not be turned into a row of a segment.
#[derive(Debug)]
pub enum SourceError {
    Normalize(NormalizeError),
    Arrow(arrow::error::ArrowError),
    Clock(String),
    Segment(&'static str),
}

impl From<NormalizeError> for SourceError {
    fn from(value: NormalizeError) -> (error: Self) {
        SourceError::Normalize(value)
    }
}

impl vstd::std_specs::convert::FromSpecImpl<NormalizeError> for SourceError {
    open spec fn obeys_from_spec() -> bool {
        true
    }

    open spec fn from_spec(value: NormalizeError) -> Self {
        SourceError::Normalize(value)
    }
}

impl From<arrow::error::ArrowError> for SourceError {
    fn from(value: arrow::error::ArrowError) -> (error: Self) {
        SourceError::Arrow(value)
    }
}

impl vstd::std_specs::convert::FromSpecImpl<arrow::error::ArrowError> for SourceError {
    open spec fn obeys_from_spec() -> bool {
        true
    }

    open spec fn from_spec(value: arrow::error::ArrowError) -> Self {
        SourceError::Arrow(value)
    }
}

/// The text that `ArrowError` displays. Nothing is claimed of it: an error from outside Arrow that it
/// carries writes its own text.
#[verifier::external_body]
fn arrow_error_text(error: &arrow::error::ArrowError) -> (text: String) {
    error.to_string()
}

/// Whether `text` is what an error of Arrow may display.
pub closed spec fn arrow_displays(error: arrow::error::ArrowError, text: Seq<char>) -> bool {
    exists|shown: String| #[trigger] call_ensures(arrow_error_text, (&error,), shown) && shown@ == text
}

impl SourceError {
    /// Whether `text` is what this error displays.
    pub open spec fn displays(self, text: Seq<char>) -> bool {
        match self {
            SourceError::Normalize(error) => text == "normalize tick failed: "@ + error.text(),
            SourceError::Arrow(error) => exists|reason: Seq<char>|
                #[trigger] arrow_displays(error, reason) && text == "build record batch failed: "@
                    + reason,
            SourceError::Clock(reason) => text == "sample localtime_ns failed: "@ + reason@,
            SourceError::Segment(reason) => text == "segment ingress failed: "@ + reason@,
        }
    }

    /// The text of the error.
    pub fn message(&self) -> (text: String)
        ensures
            self.displays(text@),
    {
        match self {
            SourceError::Normalize(error) => joined2("normalize tick failed: ", error.message()),
            SourceError::Arrow(error) => {
                let reason: String = arrow_error_text(error);
                assert(arrow_displays(*error, reason@));
                joined2("build record batch failed: ", reason.as_str())
            },
            SourceError::Clock(reason) => joined2("sample localtime_ns failed: ", reason.as_str()),
            SourceError::Segment(reason) => joined2("segment ingress failed: ", reason),
        }
    }
}

/// The failure that a source error amounts to for the runtime.
pub fn map_source_error(error: SourceError) -> (failure: RuntimeError)
    ensures
        failure is Io,
        error.displays(failure->reason@),
{
    RuntimeError::Io { reason: error.message() }
}

/// Every error says what failed, and then why.
pub proof fn law_errors_say_what_failed(error: SourceError, failure: RuntimeError)
    requires
        call_ensures(map_source_error, (error,), failure),
    ensures
        error matches SourceError::Normalize(why) ==> failure.is_io(
            "normalize tick failed: "@ + why.text(),
        ),
        error matches SourceError::Clock(why) ==> failure.is_io(
            "sample localtime_ns failed: "@ + why@,
        ),
        error matches SourceError::Segment(why) ==> failure.is_io("segment ingress failed: "@ + why@),
        error matches SourceError::Arrow(why) ==> exists|text: Seq<char>| #[trigger]
            arrow_displays(why, text) && failure.is_io("build record batch failed: "@ + text),
{
}

/// A failure has the reason that it is given.
pub proof fn law_failure_keeps_its_reason(reason: &str, error: RuntimeError)
    requires
        call_ensures(RuntimeError::io, (reason,), error),
    ensures
        error matches RuntimeError::Io { reason: text } && text@ == reason@,
{
}

} // verus!
