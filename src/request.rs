//! Framing of an evaluation request.
use crate::wire::{le_bytes, lemma_le_bytes_len, put_uint_le};
use vstd::prelude::*;
use vstd::string::StringSliceAdditionalSpecFns;

verus! {

/// Command code of an evaluation whose result the server discards.
pub const CMD_VOID_EVAL: u64 = 2;

/// Command code of an evaluation that returns its result.
pub const CMD_EVAL: u64 = 3;

/// Data-type tag of a string parameter.
pub const DT_STRING: u8 = 4;

/// The largest command length that a 24-bit length field holds, plus one.
pub const MAX_COMMAND_LEN: usize = 0x100_0000;

/// The command code for a void or value-returning evaluation.
pub open spec fn command_code(void: bool) -> nat {
    if void {
        CMD_VOID_EVAL as nat
    } else {
        CMD_EVAL as nat
    }
}

/// The bytes of a request for `cmd`: the 16-byte message header (command
/// code, payload length, offset and reserved word), the 4-byte parameter
/// header (string tag and 24-bit length) and the command itself.
pub open spec fn request_spec(cmd: Seq<u8>, void: bool) -> Seq<u8> {
    le_bytes(command_code(void), 4) + le_bytes(cmd.len() + 4, 4) + le_bytes(0, 4) + le_bytes(0, 4)
        + seq![DT_STRING] + le_bytes(cmd.len(), 3) + cmd
}

/// Frames the evaluation of `command`.
pub fn encode_request(command: &str, void: bool) -> (r: Vec<u8>)
    requires
        command.spec_bytes().len() < MAX_COMMAND_LEN,
    ensures
        r@ == request_spec(command.spec_bytes(), void),
{
    broadcast use lemma_le_bytes_len;

    let cmd = command.as_bytes();
    let len = cmd.len() as u64;
    let code: u64 = if void {
        CMD_VOID_EVAL
    } else {
        CMD_EVAL
    };
    let mut out: Vec<u8> = Vec::new();
    put_uint_le(&mut out, code, 4);
    put_uint_le(&mut out, len + 4, 4);
    put_uint_le(&mut out, 0, 4);
    put_uint_le(&mut out, 0, 4);
    out.push(DT_STRING);
    put_uint_le(&mut out, len, 3);
    let ghost head = out@;
    let mut i: usize = 0;
    while i < cmd.len()
        invariant
            head.len() == 20,
            i <= cmd@.len(),
            out@ == head + cmd@.take(i as int),
        decreases cmd@.len() - i,
    {
        out.push(cmd[i]);
        i = i + 1;
        assert(out@ =~= head + cmd@.take(i as int));
    }
    assert(cmd@.take(cmd@.len() as int) =~= cmd@);
    out
}

} // verus!
