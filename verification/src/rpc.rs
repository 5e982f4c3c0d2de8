//! The request dispatcher: one packet in, one response out.
//!
//! The dispatcher decodes a request envelope, dispatches on its operation
//! code, and encodes a response envelope whose identifier echoes the
//! request's. Payload-level failures never stop the loop: they come back
//! to the peer as an error code with an empty payload. Only the transport
//! itself can end a session, and that is the caller's concern.

use vstd::prelude::*;

use crate::coms::{
    deserialize_control, deserialize_request, encode_response, encode_state, framed,
    parse_framed_control, parse_framed_envelope, QControl, QRequest, QResponse, QState,
};
use crate::state::{LoadControl, LoadState};
use crate::wire::sizeof_varint;

verus! {

/// The operations a request can name.
#[derive(Clone, Copy, PartialEq, Eq, Structural, Debug)]
pub enum Commands {
    NOP,
    Control,
    Status,
}

impl Commands {
    /// The operation a wire code names, if any.
    pub fn from_i32(value: i32) -> (r: Option<Commands>)
        ensures
            r == (if value == 0 {
                Some(Commands::NOP)
            } else if value == 1 {
                Some(Commands::Control)
            } else if value == 2 {
                Some(Commands::Status)
            } else {
                None::<Commands>
            }),
    {
        match value {
            0 => Some(Commands::NOP),
            1 => Some(Commands::Control),
            2 => Some(Commands::Status),
            _ => None,
        }
    }
}

/// The error taxonomy surfaced to the peer in the response's error code.
/// All are non-fatal: the dispatcher answers and keeps going.
#[derive(Clone, Copy, PartialEq, Eq, Structural, Debug)]
pub enum Errors {
    NoError,
    InvalidCommand,
    ErrorDeserializingRequest,
    ErrorSerializingResponse,
    ErrorDeserializingRequestData,
    ErrorSerializingResponseData,
}

impl Errors {
    /// The wire code of this error.
    pub open spec fn spec_code(self) -> i32 {
        match self {
            Errors::NoError => 0,
            Errors::InvalidCommand => 1,
            Errors::ErrorDeserializingRequest => 2,
            Errors::ErrorSerializingResponse => 3,
            Errors::ErrorDeserializingRequestData => 4,
            Errors::ErrorSerializingResponseData => 5,
        }
    }

    /// The wire code of this error.
    pub fn code(&self) -> (r: i32)
        ensures
            r == self.spec_code(),
    {
        match self {
            Errors::NoError => 0,
            Errors::InvalidCommand => 1,
            Errors::ErrorDeserializingRequest => 2,
            Errors::ErrorSerializingResponse => 3,
            Errors::ErrorDeserializingRequestData => 4,
            Errors::ErrorSerializingResponseData => 5,
        }
    }

    /// A log-friendly name for an error.
    pub fn to_string(error: &Errors) -> (r: &'static str)
        ensures
            (match *error {
                Errors::InvalidCommand => r@ == "invalid command"@,
                Errors::ErrorDeserializingRequest => r@ == "error deserializing request"@,
                Errors::ErrorSerializingResponse => r@ == "error serializing response"@,
                Errors::ErrorDeserializingRequestData => r@ == "error deserializing request data"@,
                Errors::ErrorSerializingResponseData => r@ == "error serializing response data"@,
                Errors::NoError => r@ == "unknown error"@,
            }),
    {
        match error {
            Errors::InvalidCommand => "invalid command",
            Errors::ErrorDeserializingRequest => "error deserializing request",
            Errors::ErrorSerializingResponse => "error serializing response",
            Errors::ErrorDeserializingRequestData => "error deserializing request data",
            Errors::ErrorSerializingResponseData => "error serializing response data",
            _ => "unknown error",
        }
    }
}

/// What the transport can report while a session is up.
#[derive(Clone, Copy, PartialEq, Eq, Structural, Debug)]
pub enum TransportError {
    /// The endpoint went down: the peer disconnected.
    Disabled,
    /// The transport overran a buffer: a driver invariant was violated.
    BufferOverflow,
}

/// The dispatcher's connection state: it waits for a peer, serves one
/// session, and on a transport error goes back to waiting.
#[derive(Clone, Copy, PartialEq, Eq, Structural, Debug)]
pub enum LinkState {
    WaitingForConnection,
    Connected,
}

/// What a session does after a transport error: return to waiting for a
/// connection, or halt. Only a buffer overflow halts: it is a transport
/// invariant violation, not a protocol mistake, and is unrecoverable.
pub fn on_transport_error(error: TransportError) -> (r: Option<LinkState>)
    ensures
        r == (match error {
            TransportError::Disabled => Some(LinkState::WaitingForConnection),
            TransportError::BufferOverflow => None::<LinkState>,
        }),
{
    match error {
        TransportError::Disabled => Some(LinkState::WaitingForConnection),
        TransportError::BufferOverflow => None,
    }
}

/// The command a decoded control payload carries to the actuation task.
pub open spec fn control_of(c: QControl) -> LoadControl {
    LoadControl {
        sdn: c.sdn,
        pwm: c.pwm,
        dac0: c.dac0,
        dac1: c.dac1,
        dac2: c.dac2,
        dac3: c.dac3,
    }
}

/// The status payload for a snapshot of the store.
pub open spec fn qstate_of(s: LoadState) -> QState {
    QState {
        ch0: s.ch0,
        ch1: s.ch1,
        ch2: s.ch2,
        ch3: s.ch3,
        cal: s.cal,
        v: s.v,
        temp: s.temp,
        sdn: s.sdn,
    }
}

/// The length-prefixed status payload a status request answers with.
pub open spec fn status_reply(st: LoadState) -> Seq<u8> {
    framed(encode_state(qstate_of(st)))
}

/// Whether the status payload fits its 32-byte response buffer; when it
/// does not, the request fails with `ErrorSerializingResponseData`.
pub open spec fn status_fits(st: LoadState) -> bool {
    status_reply(st).len() <= 32
}

/// Dispatch one decoded request against a snapshot of the store.
///
/// On success the response's identifier echoes the request's, its error
/// code is cleared, and its payload is the status encoding for a status
/// request and empty otherwise; a control request additionally yields the
/// command for the mailbox — the caller sends it before answering, which
/// is where a full mailbox makes the dispatcher wait. On failure the
/// response is untouched and the error says what went wrong.
pub fn process_request(request: &QRequest, state: &LoadState, response: &mut QResponse) -> (r:
    Result<Option<LoadControl>, Errors>)
    ensures
        !(0 <= request.op <= 2) ==> r == Err::<Option<LoadControl>, Errors>(Errors::InvalidCommand)
            && *final(response) == *old(response),
        request.op == 0 ==> r == Ok::<Option<LoadControl>, Errors>(None) && final(response).id
            == request.id && final(response).error == 0 && final(response).data@ == Seq::<
            u8,
        >::empty(),
        request.op == 1 ==> (match parse_framed_control(request.data@) {
            None => r == Err::<Option<LoadControl>, Errors>(Errors::ErrorDeserializingRequestData)
                && *final(response) == *old(response),
            Some(c) => r == Ok::<Option<LoadControl>, Errors>(Some(control_of(c)))
                && final(response).id == request.id && final(response).error == 0
                && final(response).data@ == Seq::<u8>::empty(),
        }),
        request.op == 2 ==> (if status_fits(*state) {
            r == Ok::<Option<LoadControl>, Errors>(None) && final(response).id == request.id
                && final(response).error == 0 && final(response).data@ == status_reply(*state)
        } else {
            r == Err::<Option<LoadControl>, Errors>(Errors::ErrorSerializingResponseData)
                && *final(response) == *old(response)
        }),
{
    let op = Commands::from_i32(request.op);
    if op.is_none() {
        return Err(Errors::InvalidCommand);
    }
    let mut cmd: Option<LoadControl> = None;
    let mut data: Vec<u8> = Vec::new();
    match op.unwrap() {
        Commands::NOP => {},
        Commands::Control => {
            match deserialize_control(request.data.as_slice()) {
                None => {
                    return Err(Errors::ErrorDeserializingRequestData);
                },
                Some(c) => {
                    cmd = Some(
                        LoadControl {
                            sdn: c.sdn,
                            pwm: c.pwm,
                            dac0: c.dac0,
                            dac1: c.dac1,
                            dac2: c.dac2,
                            dac3: c.dac3,
                        },
                    );
                },
            }
        },
        Commands::Status => {
            let qstate = QState {
                ch0: state.ch0,
                ch1: state.ch1,
                ch2: state.ch2,
                ch3: state.ch3,
                cal: state.cal,
                v: state.v,
                temp: state.temp,
                sdn: state.sdn,
            };
            let size = qstate.get_size();
            proof {
                crate::coms::lemma_encode_state_len(qstate);
            }
            let prefix = sizeof_varint(size as u64);
            if size + prefix > 32 {
                return Err(Errors::ErrorSerializingResponseData);
            }
            data = qstate.to_framed();
        },
    }
    response.id = request.id;
    response.error = 0;
    response.data = data;
    Ok(cmd)
}

/// The response fields one packet gets back, against a snapshot of the
/// store: identifier, error code, payload.
pub open spec fn rpc_reply(packet: Seq<u8>, st: LoadState) -> (i32, i32, Seq<u8>) {
    match parse_framed_envelope(packet) {
        None => (0i32, 2i32, Seq::<u8>::empty()),
        Some((id, op, data)) => if op == 0 {
            (id, 0i32, Seq::<u8>::empty())
        } else if op == 1 {
            match parse_framed_control(data) {
                None => (id, 4i32, Seq::<u8>::empty()),
                Some(c) => (id, 0i32, Seq::<u8>::empty()),
            }
        } else if op == 2 {
            if status_fits(st) {
                (id, 0i32, status_reply(st))
            } else {
                (id, 5i32, Seq::<u8>::empty())
            }
        } else {
            (id, 1i32, Seq::<u8>::empty())
        },
    }
}

/// The command one packet puts into the mailbox: only a well-formed
/// control request carries one.
pub open spec fn rpc_command(packet: Seq<u8>) -> Option<LoadControl> {
    match parse_framed_envelope(packet) {
        None => None,
        Some((id, op, data)) => if op == 1 {
            match parse_framed_control(data) {
                None => None,
                Some(c) => Some(control_of(c)),
            }
        } else {
            None
        },
    }
}

/// The length-prefixed response packet for one request packet, or `None`
/// when the encoding would not fit the 64-byte transport packet — the
/// response is then dropped and the peer sees no reply.
pub open spec fn rpc_response_packet(packet: Seq<u8>, st: LoadState) -> Option<Seq<u8>> {
    let (id, err, data) = rpc_reply(packet, st);
    let out = framed(encode_response(id, err, data));
    if out.len() <= 64 {
        Some(out)
    } else {
        None
    }
}

/// A status reply is faithful: decoding the payload a status request
/// answers with gives back exactly the snapshot of the store taken for
/// that request — all eight fields, untorn.
pub proof fn lemma_status_reply_exact(st: LoadState)
    ensures
        ({
            let body = encode_state(qstate_of(st));
            crate::coms::take_frame(status_reply(st)) == Some(body)
                && crate::coms::parse_state(body) == Some(qstate_of(st))
        }),
{
    crate::coms::lemma_encode_state_len(qstate_of(st));
    crate::coms::lemma_take_frame_of_framed(encode_state(qstate_of(st)));
    crate::coms::lemma_state_round_trip(qstate_of(st));
}

/// A well-formed request packet is read back as sent: framing and
/// envelope decoding invert the encoding, so the dispatcher sees exactly
/// the identifier, operation and payload the peer put on the wire.
pub proof fn lemma_request_packet_decodes(id: i32, op: i32, data: Seq<u8>)
    requires
        data.len() < 0x1_0000_0000 - 33,
    ensures
        parse_framed_envelope(framed(crate::coms::encode_request(id, op, data))) == Some(
            (id, op, data),
        ),
{
    crate::coms::lemma_encode_envelope_len(id, op, data);
    crate::coms::lemma_take_frame_of_framed(crate::coms::encode_request(id, op, data));
    crate::coms::lemma_envelope_round_trip(id, op, data);
}

/// End to end, at the specification level: for a well-formed request
/// packet the reply echoes the identifier and carries what the operation
/// prescribes — nothing for a no-op, the command (and nothing else) for a
/// control request whose payload decodes, the status snapshot for a
/// status request that fits, and the matching error code otherwise.
pub proof fn lemma_rpc_reply_cases(id: i32, op: i32, data: Seq<u8>, st: LoadState)
    requires
        data.len() < 0x1_0000_0000 - 33,
    ensures
        ({
            let packet = framed(crate::coms::encode_request(id, op, data));
            &&& (op == 0 ==> rpc_reply(packet, st) == (id, 0i32, Seq::<u8>::empty())
                && rpc_command(packet) is None)
            &&& (!(0 <= op <= 2) ==> rpc_reply(packet, st) == (id, 1i32, Seq::<u8>::empty())
                && rpc_command(packet) is None)
            &&& (op == 1 ==> (match parse_framed_control(data) {
                None => rpc_reply(packet, st) == (id, 4i32, Seq::<u8>::empty()) && rpc_command(
                    packet,
                ) is None,
                Some(c) => rpc_reply(packet, st) == (id, 0i32, Seq::<u8>::empty()) && rpc_command(
                    packet,
                ) == Some(control_of(c)),
            }))
            &&& (op == 2 ==> rpc_command(packet) is None && (if status_fits(st) {
                rpc_reply(packet, st) == (id, 0i32, status_reply(st))
            } else {
                rpc_reply(packet, st) == (id, 5i32, Seq::<u8>::empty())
            }))
        }),
{
    lemma_request_packet_decodes(id, op, data);
}

/// Handle one transport packet: decode, dispatch, encode.
///
/// Returns the encoded response packet (`None` when encoding it would
/// overrun a transport packet, in which case it is dropped), and the
/// command to hand to the actuation task. The caller sends the command
/// into the mailbox before writing the response, so a slow actuation
/// loop backpressures the peer.
pub fn handle_frame(packet: &[u8], state: &LoadState) -> (r: (Option<Vec<u8>>, Option<
    LoadControl,
>))
    ensures
        r.1 == rpc_command(packet@),
        (match r.0 {
            Some(out) => rpc_response_packet(packet@, *state) == Some(out@),
            None => rpc_response_packet(packet@, *state) is None,
        }),
{
    let mut response = QResponse::default();
    let mut cmd: Option<LoadControl> = None;
    match deserialize_request(packet) {
        None => {
            response.error = Errors::ErrorDeserializingRequest.code();
        },
        Some(req) => {
            match process_request(&req, state, &mut response) {
                Ok(c) => {
                    cmd = c;
                },
                Err(e) => {
                    response = QResponse::default();
                    response.id = req.id;
                    response.error = e.code();
                },
            }
        },
    }
    assert(response.data@.len() <= 32);
    let size = response.get_size();
    proof {
        crate::coms::lemma_encode_envelope_len(response.id, response.error, response.data@);
    }
    let prefix = sizeof_varint(size as u64);
    if size + prefix > 64 {
        (None, cmd)
    } else {
        let out = response.to_framed();
        (Some(out), cmd)
    }
}

} // verus!
