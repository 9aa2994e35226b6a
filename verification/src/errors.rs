//! Error types: every failure of the library is terminal for its call and
//! carries a descriptive message.
use vstd::prelude::*;

verus! {

/// Failure while decoding instance data against a schema.
#[derive(Debug, Clone)]
pub struct DecodeError {
    pub message: String,
}

impl DecodeError {
    pub fn new(message: &str) -> (r: Self)
        ensures
            r.message@ == message@,
    {
        DecodeError { message: message.to_owned() }
    }
}

/// Failure while encoding or decoding the schema wire format itself.
#[derive(Debug, Clone)]
pub struct CodecError {
    pub message: String,
}

impl CodecError {
    pub fn new(message: &str) -> (r: Self)
        ensures
            r.message@ == message@,
    {
        CodecError { message: message.to_owned() }
    }
}

/// Failure while compiling an interface-description document.
#[derive(Debug, Clone)]
pub struct IdlError {
    pub message: String,
}

impl IdlError {
    pub fn new(message: &str) -> (r: Self)
        ensures
            r.message@ == message@,
    {
        IdlError { message: message.to_owned() }
    }
}

/// Failure while rendering a decoded value to output text.
#[derive(Debug, Clone)]
pub struct RenderError {
    pub message: String,
}

impl RenderError {
    pub fn new(message: &str) -> (r: Self)
        ensures
            r.message@ == message@,
    {
        RenderError { message: message.to_owned() }
    }
}

} // verus!
