use vstd::prelude::*;

verus! {

/// Why a type could not be deduced or two deduced types could not be combined.
#[derive(Debug, PartialEq, Eq)]
pub enum DeduceTypeError {
    NotImplemented(String),
    Unexpected(String),
}

/// The result of deducing or combining types.
pub type DeduceTypeResult<T> = Result<T, DeduceTypeError>;

/// The mathematical value of a [`DeduceTypeError`]: its variant and its message.
pub enum ErrorModel {
    NotImplemented(Seq<char>),
    Unexpected(Seq<char>),
}

impl View for DeduceTypeError {
    type V = ErrorModel;

    open spec fn view(&self) -> ErrorModel {
        match self {
            DeduceTypeError::NotImplemented(m) => ErrorModel::NotImplemented(m@),
            DeduceTypeError::Unexpected(m) => ErrorModel::Unexpected(m@),
        }
    }
}

/// The text of `format!("{:?}", e)` for an error whose value is `e`, such as
/// `NotImplemented("...")`.
pub uninterp spec fn error_debug_text(e: ErrorModel) -> Seq<char>;

/// Formats, with std's `format!` and the derived `Debug` impl of
/// [`DeduceTypeError`], the text of an error. The contract claims only that
/// the text is the named function of the error's variant and message.
#[verifier::external_body]
fn debug_text(e: &DeduceTypeError) -> (r: String)
    ensures
        r@ == error_debug_text(e@),
{
    format!("{:?}", e)
}

impl DeduceTypeError {
    /// The text that shows this error: its `Debug` text, such as
    /// `NotImplemented("...")`.
    pub fn to_string(&self) -> (r: String)
        ensures
            r@ == error_debug_text(self@),
    {
        debug_text(self)
    }

    /// An error for a case that deduction does not handle; `what` is the message.
    #[must_use]
    pub fn not_implemented(what: &str) -> (e: Self)
        ensures
            e@ == ErrorModel::NotImplemented(what@),
    {
        DeduceTypeError::NotImplemented(what.to_owned())
    }

    /// An error for an input that deduction did not expect; `what` is the message.
    #[must_use]
    pub fn unexpected(what: &str) -> (e: Self)
        ensures
            e@ == ErrorModel::Unexpected(what@),
    {
        DeduceTypeError::Unexpected(what.to_owned())
    }
}

} // verus!
