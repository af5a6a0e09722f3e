//! The contracts under which this library uses the `string_builder` crate.
//!
//! Nothing in this file is proved: each item states what the outside code is
//! taken to do.

use std::string::FromUtf8Error;
use string_builder::Builder;
use vstd::prelude::*;
use vstd::string::StringSliceAdditionalSpecFns;
use vstd::utf8::{decode_utf8, valid_utf8};

verus! {

/// `string_builder::Builder`, a growable buffer of bytes. Opaque to the
/// verifier: what it holds is spoken of through [`builder_bytes`].
#[verifier::external_type_specification]
#[verifier::external_body]
pub struct ExBuilder(string_builder::Builder);

/// `std::string::FromUtf8Error`, which `Builder::string` hands back when its
/// bytes are no UTF-8. Opaque to the verifier.
#[verifier::external_type_specification]
#[verifier::external_body]
pub struct ExFromUtf8Error(std::string::FromUtf8Error);

/// The bytes that a builder holds, in the order in which they were appended.
pub uninterp spec fn builder_bytes(builder: Builder) -> Seq<u8>;

/// A builder that holds no bytes.
///
/// Trusted: wraps `Builder::default`, which allocates an empty buffer.
#[verifier::external_body]
pub(crate) fn new_builder() -> (builder: Builder)
    ensures
        builder_bytes(builder) == Seq::<u8>::empty(),
{
    Builder::default()
}

/// Appends the UTF-8 encoding of `text` to the builder.
///
/// Trusted: wraps `Builder::append` at the type `&str`, which writes the bytes
/// of `text` behind those that the buffer holds and leaves these as they are.
#[verifier::external_body]
pub(crate) fn append_str(builder: &mut Builder, text: &str)
    ensures
        builder_bytes(*final(builder)) == builder_bytes(*old(builder)) + text.spec_bytes(),
{
    builder.append(text)
}

/// Turns the builder into the string that its bytes encode.
///
/// Trusted: wraps `Builder::string`, which is `String::from_utf8` on the
/// buffer: the decoded string where the bytes are valid UTF-8, an error where
/// they are not.
#[verifier::external_body]
pub(crate) fn into_string(builder: Builder) -> (text: Result<String, FromUtf8Error>)
    ensures
        valid_utf8(builder_bytes(builder)) ==> text is Ok && text->Ok_0@ == decode_utf8(
            builder_bytes(builder),
        ),
        !valid_utf8(builder_bytes(builder)) ==> text is Err,
{
    builder.string()
}

} // verus!
