//! The values a response decodes to, and the errors of the protocol.
use vstd::prelude::*;

verus! {

/// A decoded result. A double travels as the raw bits of its IEEE-754
/// encoding; `f64::from_bits` turns it into a number.
#[derive(Debug, PartialEq)]
pub enum ReturnValue {
    Char(char),
    Int(i32),
    Double(u64),
    Null(String),
    Bool(bool),
    Str(String),
    IntVec(Vec<i32>),
    DoubleVec(Vec<u64>),
    BoolVec(Vec<bool>),
    StrVec(Vec<String>),
}

/// The mathematical content of a `ReturnValue`.
pub enum ValueModel {
    Char(char),
    Int(i32),
    Double(u64),
    Null(Seq<char>),
    Bool(bool),
    Str(Seq<char>),
    IntVec(Seq<i32>),
    DoubleVec(Seq<u64>),
    BoolVec(Seq<bool>),
    StrVec(Seq<Seq<char>>),
}

impl View for ReturnValue {
    type V = ValueModel;

    open spec fn view(&self) -> ValueModel {
        match self {
            ReturnValue::Char(c) => ValueModel::Char(*c),
            ReturnValue::Int(i) => ValueModel::Int(*i),
            ReturnValue::Double(d) => ValueModel::Double(*d),
            ReturnValue::Null(s) => ValueModel::Null(s@),
            ReturnValue::Bool(b) => ValueModel::Bool(*b),
            ReturnValue::Str(s) => ValueModel::Str(s@),
            ReturnValue::IntVec(v) => ValueModel::IntVec(v@),
            ReturnValue::DoubleVec(v) => ValueModel::DoubleVec(v@),
            ReturnValue::BoolVec(v) => ValueModel::BoolVec(v@),
            ReturnValue::StrVec(v) => ValueModel::StrVec(v@.map_values(|s: String| s@)),
        }
    }
}

/// Everything that can go wrong in the protocol itself. Failures of the
/// transport underneath are reported by whoever drives it.
#[derive(Debug, Clone, Copy, PartialEq, Eq, Structural)]
pub enum RserveError {
    /// The server's greeting does not begin with the protocol marker.
    Handshake,
    /// The address names neither a TCP nor a local-socket endpoint.
    InvalidAddress,
    /// The server reported a failed evaluation with this error code.
    Evaluation { code: u8 },
    /// A data-type or expression-type tag this client does not decode.
    UnsupportedType { tag: u8 },
    /// Fewer bytes than a fixed-width field or a declared length needs.
    TruncatedResponse,
    /// Text in the response is not valid UTF-8.
    InvalidText,
    /// The command does not fit the 24-bit length of a parameter header.
    CommandTooLong,
    /// The operation does not fit the connection's current phase.
    OutOfTurn,
}

/// The model of a decoding result.
pub open spec fn result_view(r: Result<ReturnValue, RserveError>) -> Result<ValueModel, RserveError> {
    match r {
        Ok(v) => Ok(v@),
        Err(e) => Err(e),
    }
}

/// The model of the `Null` value: its tag text.
pub open spec fn null_text() -> Seq<char> {
    seq!['N', 'U', 'L', 'L']
}

} // verus!
