//! Outside types that the library's error values carry, and the text of them.
use vstd::prelude::*;

verus! {

/// `std::io::Error`, carried by the I/O variants of the error types.
#[verifier::external_type_specification]
#[verifier::external_body]
pub struct ExIoError(std::io::Error);

/// `toml::de::Error`, carried by `ConfigError::Parse`.
#[verifier::external_type_specification]
#[verifier::external_body]
pub struct ExTomlError(toml::de::Error);

/// `serde_json::Error`, carried by the JSON variants of the error types.
#[verifier::external_type_specification]
#[verifier::external_body]
pub struct ExJsonError(serde_json::Error);

/// `serde_json::Value`, the parsed JSON that `crate::json` turns into a `JsonValue`.
#[verifier::external_type_specification]
#[verifier::external_body]
pub struct ExJsonValue(serde_json::Value);

/// `Clone` of `std::time::Duration`, a `Copy` type: the clone is the same value.
pub assume_specification[ <std::time::Duration as Clone>::clone ](d: &std::time::Duration) -> (r:
    std::time::Duration)
    ensures
        r == *d,
;

/// The `Display` text of an `std::io::Error` (`to_string`). Nothing is stated
/// of the text: it comes from the operating system or from whoever made the error.
#[verifier::external_body]
pub(crate) fn io_error_text(e: &std::io::Error) -> String {
    e.to_string()
}

/// The `Display` text of a `toml::de::Error` (`to_string`). Nothing is stated of
/// the text, which the toml crate composes from the parse position and reason.
#[verifier::external_body]
pub(crate) fn toml_error_text(e: &toml::de::Error) -> String {
    e.to_string()
}

/// The `Display` text of a `serde_json::Error` (`to_string`). Nothing is stated
/// of the text, which serde_json composes from the error category and position.
#[verifier::external_body]
pub(crate) fn json_error_text(e: &serde_json::Error) -> String {
    e.to_string()
}

} // verus!
