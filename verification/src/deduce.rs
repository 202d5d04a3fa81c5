use vstd::prelude::*;

use crate::data::DeducedType;
use crate::error::{DeduceTypeError, DeduceTypeResult, ErrorModel};
use crate::text::texts;

verus! {

/// The text of `format!("Trait default impl for {:?}", name)`.
pub uninterp spec fn default_deduce_text(name: Seq<Seq<char>>) -> Seq<char>;

/// The separator that follows the names in the default message.
pub open spec fn name_separator() -> Seq<char> {
    seq![':', ' ']
}

/// Formats, with std's `format!` and the `Debug` impl of `[String]`, the
/// message of a validator that does not deduce types: the named text of the
/// names, then `": "`. The message stops there and does not name the
/// validator's Rust type.
#[verifier::external_body]
fn default_deduce_message(name: &[String]) -> (r: String)
    ensures
        r@ == default_deduce_text(texts(name@)) + name_separator(),
{
    format!("Trait default impl for {:?}: ", name)
}

/// A validator that can tell which type the values it accepts have.
pub trait DeduceType {
    /// The type of the values this validator accepts, named by the path
    /// `name`. Without an implementation of its own, a validator reports that
    /// it deduces nothing.
    fn deduce_type(&self, name: &[String]) -> (r: DeduceTypeResult<DeducedType>)
        default_ensures
            r matches Err(e) && e@ == ErrorModel::NotImplemented(
                default_deduce_text(texts(name@)) + name_separator(),
            ),
    {
        let message = default_deduce_message(name);
        Err(DeduceTypeError::not_implemented(message.as_str()))
    }
}

} // verus!
