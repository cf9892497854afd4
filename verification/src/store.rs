//! What the library takes on trust from the crates that speak to the store:
//! the value types it carries through, the conversion of a JSON value and
//! of a text into a store attribute, the numeric attribute, and the clock.

use vstd::prelude::*;
use aws_sdk_dynamodb::model::AttributeValue;
use serde_json::Value;

verus! {

/// `serde_json::Value`, carried through without looking inside.
#[verifier::external_type_specification]
#[verifier::external_body]
pub struct ExValue(serde_json::Value);

/// `aws_sdk_dynamodb::model::AttributeValue`, carried through without looking inside.
#[verifier::external_type_specification]
#[verifier::external_body]
pub struct ExAttributeValue(aws_sdk_dynamodb::model::AttributeValue);

/// `serde_dynamo::Error`, whose text is all that is read of it.
#[verifier::external_type_specification]
#[verifier::external_body]
pub struct ExConversionError(serde_dynamo::Error);

/// The store attribute that `serde_dynamo` serialises a JSON value into, or
/// `None` where it reports an error.
pub uninterp spec fn attribute_of(value: Value) -> Option<AttributeValue>;

/// The store attribute that `serde_dynamo` serialises a text into, or `None`
/// where it reports an error.
pub uninterp spec fn text_attribute_of(text: Seq<char>) -> Option<AttributeValue>;

/// The store's numeric attribute whose text is `digits`.
pub uninterp spec fn number_attribute(digits: Seq<char>) -> AttributeValue;

/// Calls `serde_dynamo::aws_sdk_dynamodb_0_17::to_attribute_value` on a
/// reference to `value`. Assumed: the outcome depends on the value alone, so
/// that it is what `attribute_of` names, and an error comes exactly where
/// there is no attribute.
#[verifier::external_body]
pub(crate) fn to_attribute(value: &Value) -> (outcome: Result<AttributeValue, serde_dynamo::Error>)
    ensures
        match outcome {
            Ok(attribute) => attribute_of(*value) == Some(attribute),
            Err(_) => attribute_of(*value).is_none(),
        },
{
    serde_dynamo::aws_sdk_dynamodb_0_17::to_attribute_value(value)
}

/// Calls `serde_dynamo::aws_sdk_dynamodb_0_17::to_attribute_value` on a
/// reference to `text`. Assumed: the outcome depends on the characters
/// alone, so that it is what `text_attribute_of` names, and an error comes
/// exactly where there is no attribute.
#[verifier::external_body]
pub(crate) fn to_text_attribute(text: &String) -> (outcome: Result<
    AttributeValue,
    serde_dynamo::Error,
>)
    ensures
        match outcome {
            Ok(attribute) => text_attribute_of(text@) == Some(attribute),
            Err(_) => text_attribute_of(text@).is_none(),
        },
{
    serde_dynamo::aws_sdk_dynamodb_0_17::to_attribute_value(text)
}

/// Builds `AttributeValue::N` around `digits`. Assumed: the attribute
/// depends on the text alone, so that it is what `number_attribute` names.
#[verifier::external_body]
pub(crate) fn make_number(digits: String) -> (attribute: AttributeValue)
    ensures
        attribute == number_attribute(digits@),
{
    AttributeValue::N(digits)
}

/// Calls `Display` of `serde_dynamo::Error` through `to_string`. Nothing is
/// assumed of the text.
#[verifier::external_body]
pub(crate) fn conversion_error_text(error: &serde_dynamo::Error) -> String {
    error.to_string()
}

/// Reads the system clock with `SystemTime::now` and turns it into
/// nanoseconds since the Unix epoch with `DateTime::from` and
/// `DateTime::as_nanos` of `aws_sdk_dynamodb::types`. Nothing is assumed of
/// the number: a clock set before the epoch gives a negative one.
#[verifier::external_body]
pub(crate) fn clock_nanos() -> i128 {
    aws_sdk_dynamodb::types::DateTime::from(std::time::SystemTime::now()).as_nanos()
}

} // verus!
