//! The decisions around the transport: which endpoint an address names,
//! whether the server's greeting is acceptable, when a response is complete,
//! and the one-request-at-a-time discipline of a connection.
use crate::request::{encode_request, request_spec, MAX_COMMAND_LEN};
use crate::response::{decode_response, response_spec};
use crate::value::{result_view, ReturnValue, RserveError};
use crate::wire::{lemma_le_value_bound, pow256, read_uint_le, uint_at};
use vstd::prelude::*;
use vstd::slice::slice_subrange;
use vstd::string::StringSliceAdditionalSpecFns;

verus! {

/// `b` begins with `p`.
pub open spec fn starts_with(b: Seq<u8>, p: Seq<u8>) -> bool {
    p.len() <= b.len() && b.take(p.len() as int) == p
}

/// The bytes of `"tcp://"`.
pub open spec fn tcp_scheme() -> Seq<u8> {
    seq![116u8, 99u8, 112u8, 58u8, 47u8, 47u8]
}

/// The bytes of `"unix://"`.
pub open spec fn unix_scheme() -> Seq<u8> {
    seq![117u8, 110u8, 105u8, 120u8, 58u8, 47u8, 47u8]
}

/// The bytes of `"Rsrv01"`, which open the server's greeting.
pub open spec fn greeting_marker() -> Seq<u8> {
    seq![82u8, 115u8, 114u8, 118u8, 48u8, 49u8]
}

/// The kind of stream an address names.
#[derive(Debug, Clone, Copy, PartialEq, Eq, Structural)]
pub enum Transport {
    Tcp,
    Unix,
}

/// A parsed address: the stream kind, and the byte offset at which the
/// host and port, or the socket path, begin.
#[derive(Debug, Clone, Copy, PartialEq, Eq, Structural)]
pub struct Endpoint {
    pub transport: Transport,
    pub start: usize,
}

/// The endpoint that the address bytes `b` name: what follows the one
/// leading scheme is the host and port, or the path.
pub open spec fn address_spec(b: Seq<u8>) -> Result<Endpoint, RserveError> {
    if starts_with(b, tcp_scheme()) {
        Ok(Endpoint { transport: Transport::Tcp, start: 6 })
    } else if starts_with(b, unix_scheme()) {
        Ok(Endpoint { transport: Transport::Unix, start: 7 })
    } else {
        Err(RserveError::InvalidAddress)
    }
}

fn has_prefix_at(b: &[u8], pos: usize, p: &Vec<u8>) -> (r: bool)
    requires
        pos <= b@.len(),
    ensures
        r == starts_with(b@.skip(pos as int), p@),
        r ==> pos + p@.len() <= b@.len(),
{
    if b.len() - pos < p.len() {
        return false;
    }
    let mut i: usize = 0;
    while i < p.len()
        invariant
            pos + p@.len() <= b@.len() <= usize::MAX,
            i <= p@.len(),
            forall|j: int| 0 <= j < i ==> b@[pos + j] == p@[j],
        decreases p@.len() - i,
    {
        if b[pos + i] != p[i] {
            assert(b@.skip(pos as int).take(p@.len() as int)[i as int] != p@[i as int]);
            return false;
        }
        i = i + 1;
    }
    assert(b@.skip(pos as int).take(p@.len() as int) =~= p@);
    true
}

/// Reads an address of the form `tcp://<host>:<port>` or `unix://<path>`.
pub fn parse_address(addr: &str) -> (r: Result<Endpoint, RserveError>)
    ensures
        r == address_spec(addr.spec_bytes()),
{
    let b = addr.as_bytes();
    let tcp: Vec<u8> = vec![116u8, 99, 112, 58, 47, 47];
    let unix: Vec<u8> = vec![117u8, 110, 105, 120, 58, 47, 47];
    assert(tcp@ =~= tcp_scheme());
    assert(unix@ =~= unix_scheme());
    assert(b@.skip(0) =~= b@);
    if has_prefix_at(b, 0, &tcp) {
        Ok(Endpoint { transport: Transport::Tcp, start: tcp.len() })
    } else if has_prefix_at(b, 0, &unix) {
        Ok(Endpoint { transport: Transport::Unix, start: unix.len() })
    } else {
        Err(RserveError::InvalidAddress)
    }
}

/// Accepts the server's greeting exactly when it begins with `"Rsrv01"`.
pub fn check_greeting(data: &[u8]) -> (r: Result<(), RserveError>)
    ensures
        r == (if starts_with(data@, greeting_marker()) {
            Ok(())
        } else {
            Err(RserveError::Handshake)
        }),
{
    let marker: Vec<u8> = vec![82u8, 115, 114, 118, 48, 49];
    assert(marker@ =~= greeting_marker());
    assert(data@.skip(0) =~= data@);
    if has_prefix_at(data, 0, &marker) {
        Ok(())
    } else {
        Err(RserveError::Handshake)
    }
}

/// The bytes that a response starting `b` occupies, once its 16-byte header
/// has arrived: the header and the payload length it declares.
pub open spec fn frame_len_spec(b: Seq<u8>) -> Option<nat> {
    if b.len() < 16 {
        None
    } else {
        Some(16 + uint_at(b, 4, 4))
    }
}

/// Whether the bytes received so far hold a whole response.
pub open spec fn frame_complete(b: Seq<u8>) -> bool {
    match frame_len_spec(b) {
        Some(n) => n <= b.len(),
        None => false,
    }
}

/// The length of the response that starts `buf`, once its header is there.
pub fn response_frame_len(buf: &[u8]) -> (r: Option<u64>)
    ensures
        match r {
            Some(n) => frame_len_spec(buf@) == Some(n as nat),
            None => frame_len_spec(buf@) is None,
        },
{
    if buf.len() < 16 {
        return None;
    }
    let declared = read_uint_le(buf, 4, 4);
    proof {
        lemma_le_value_bound(buf@.subrange(4, 8));
        reveal_with_fuel(pow256, 5);
    }
    Some(16 + declared)
}

/// Where a connection stands in its exchange with the server.
#[derive(Debug, Clone, Copy, PartialEq, Eq, Structural)]
pub enum Phase {
    /// Connected; the server's greeting has not been checked yet.
    Greeting,
    /// Ready for a request.
    Idle,
    /// A request went out; its response has not been decoded yet.
    AwaitingResponse,
    /// Unusable: the greeting was refused or the connection was shut.
    Closed,
}

/// The protocol state of one connection. Requests and responses strictly
/// alternate: a request is framed only when no response is outstanding.
pub struct Session {
    phase: Phase,
}

impl View for Session {
    type V = Phase;

    closed spec fn view(&self) -> Phase {
        self.phase
    }
}

impl Session {
    /// The state of a freshly connected stream.
    pub fn new() -> (s: Session)
        ensures
            s@ == Phase::Greeting,
    {
        Session { phase: Phase::Greeting }
    }

    /// The current phase.
    pub fn phase(&self) -> (p: Phase)
        ensures
            p == self@,
    {
        self.phase
    }

    /// Takes the first bytes that the server sent. A greeting without the
    /// marker closes the session for good.
    pub fn greet(&mut self, data: &[u8]) -> (r: Result<(), RserveError>)
        ensures
            old(self)@ == Phase::Greeting && starts_with(data@, greeting_marker()) ==> r == Ok::<
                (),
                RserveError,
            >(()) && final(self)@ == Phase::Idle,
            old(self)@ == Phase::Greeting && !starts_with(data@, greeting_marker()) ==> r == Err::<
                (),
                RserveError,
            >(RserveError::Handshake) && final(self)@ == Phase::Closed,
            old(self)@ != Phase::Greeting ==> r == Err::<(), RserveError>(RserveError::OutOfTurn)
                && final(self)@ == old(self)@,
    {
        if self.phase != Phase::Greeting {
            return Err(RserveError::OutOfTurn);
        }
        match check_greeting(data) {
            Ok(()) => {
                self.phase = Phase::Idle;
                Ok(())
            },
            Err(e) => {
                self.phase = Phase::Closed;
                Err(e)
            },
        }
    }

    /// Frames the evaluation of `command` for sending, when no other
    /// request is outstanding and the command's length fits its header.
    pub fn request(&mut self, command: &str, void: bool) -> (r: Result<Vec<u8>, RserveError>)
        ensures
            old(self)@ == Phase::Idle && command.spec_bytes().len() < MAX_COMMAND_LEN ==> (r matches Ok(
                bytes,
            ) && bytes@ == request_spec(command.spec_bytes(), void)) && final(self)@
                == Phase::AwaitingResponse,
            old(self)@ == Phase::Idle && command.spec_bytes().len() >= MAX_COMMAND_LEN ==> r
                == Err::<Vec<u8>, RserveError>(RserveError::CommandTooLong) && final(self)@ == old(
                self,
            )@,
            old(self)@ != Phase::Idle ==> r == Err::<Vec<u8>, RserveError>(RserveError::OutOfTurn)
                && final(self)@ == old(self)@,
    {
        if self.phase != Phase::Idle {
            return Err(RserveError::OutOfTurn);
        }
        if command.as_bytes().len() >= MAX_COMMAND_LEN {
            return Err(RserveError::CommandTooLong);
        }
        self.phase = Phase::AwaitingResponse;
        Ok(encode_request(command, void))
    }

    /// Takes the bytes received so far for the outstanding request. Until
    /// they hold a whole response this returns `None`; then it decodes the
    /// response and the session is ready for the next request.
    pub fn receive(&mut self, buf: &[u8]) -> (r: Option<Result<ReturnValue, RserveError>>)
        ensures
            old(self)@ == Phase::AwaitingResponse && !frame_complete(buf@) ==> r is None
                && final(self)@ == old(self)@,
            old(self)@ == Phase::AwaitingResponse && frame_complete(buf@) ==> (r matches Some(res)
                && result_view(res) == response_spec(
                buf@.take(frame_len_spec(buf@)->Some_0 as int),
            )) && final(self)@ == Phase::Idle,
            old(self)@ != Phase::AwaitingResponse ==> (r matches Some(Err(e)) && e
                == RserveError::OutOfTurn) && final(self)@ == old(self)@,
    {
        if self.phase != Phase::AwaitingResponse {
            return Some(Err(RserveError::OutOfTurn));
        }
        match response_frame_len(buf) {
            None => None,
            Some(n) => {
                if (buf.len() as u64) < n {
                    return None;
                }
                self.phase = Phase::Idle;
                Some(decode_response(slice_subrange(buf, 0, n as usize)))
            },
        }
    }

    /// Marks the connection as shut; nothing more is sent or decoded on it.
    pub fn close(&mut self)
        ensures
            final(self)@ == Phase::Closed,
    {
        self.phase = Phase::Closed;
    }
}

} // verus!
