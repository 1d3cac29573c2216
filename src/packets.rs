//! The packets a client sends before play: the handshake, the status
//! request and ping, and the two login packets. Each reader takes the body of
//! one frame and must consume all of it.
use vstd::prelude::*;
use vstd::slice::slice_to_vec;
use vstd::string::*;
use vstd::utf8::*;

use vstd::arithmetic::div_mod::lemma_fundamental_div_mod;

use crate::builder::{be_bytes, lemma_be_bytes_len, var_data_bytes};
use crate::parse::{
    after, be_u16, be_u64, be_value, connection_state, consumed, is_suffix, lemma_suffix_trans,
    pow256, spec_connection_state, spec_var_bytes, spec_var_str, var_bytes, var_str,
    var_str_with_max_length, ParseError, DEFAULT_MAX_STRING_LENGTH,
};
use crate::state::ConnectionState;
use crate::varint::{encode_spec, lemma_varint_round_trip, varint, varint_outcome, VarintOutcome};

verus! {

broadcast use vstd::string::group_string_axioms, vstd::utf8::group_utf8_lib;

/// A varint read as a `u32`, and its size.
pub open spec fn spec_varint32(s: Seq<u8>) -> Result<(u32, nat), ParseError> {
    match varint_outcome(s, 32) {
        VarintOutcome::Overflow => Err(ParseError::VarintOverflow),
        VarintOutcome::Incomplete => Err(ParseError::Incomplete),
        VarintOutcome::Value { bits, len } => Ok((bits as u32, len)),
    }
}

/// A big-endian integer of `n` bytes.
pub open spec fn spec_be(s: Seq<u8>, n: nat) -> Result<(nat, nat), ParseError> {
    if s.len() < n {
        Err(ParseError::Incomplete)
    } else {
        Ok((be_value(s.subrange(0, n as int)), n))
    }
}

/// Reads the packet id at the start of a body.
pub fn packet_id(body: &[u8]) -> (r: Result<(&[u8], u32), ParseError>)
    ensures
        match r {
            Ok((rest, id)) => spec_varint32(body@) == Ok::<(u32, nat), ParseError>(
                (id, consumed(body@, rest@)),
            ) && is_suffix(body@, rest@),
            Err(e) => spec_varint32(body@) == Err::<(u32, nat), ParseError>(e),
        },
{
    varint::<u32>(body)
}

/// Longest username a login may carry.
pub const MAX_USERNAME_LENGTH: u32 = 16;

// ---------------------------------------------------------------------------
// Handshake.

/// The only packet of the handshake phase (id 0).
#[derive(Debug, Clone, PartialEq, Eq)]
pub struct Handshake {
    pub protocol_version: u32,
    pub server_address: String,
    pub server_port: u16,
    pub next_state: ConnectionState,
}

/// A handshake's fields: protocol version, address bytes, port, next state.
pub type HandshakeModel = (u32, Seq<u8>, u16, ConnectionState);

impl Handshake {
    pub open spec fn model(&self) -> HandshakeModel {
        (self.protocol_version, encode_utf8(self.server_address@), self.server_port, self.next_state)
    }
}

/// The fields of a handshake: varint version, address string, big-endian
/// port, varint next state.
pub open spec fn spec_handshake_fields(s: Seq<u8>) -> Result<(HandshakeModel, nat), ParseError> {
    match spec_varint32(s) {
        Err(e) => Err(e),
        Ok((version, n1)) => {
            let s1 = after(s, n1 as int);
            match spec_var_str(s1, DEFAULT_MAX_STRING_LENGTH as nat) {
                Err(e) => Err(e),
                Ok((addr, n2)) => {
                    let s2 = after(s1, n2 as int);
                    match spec_be(s2, 2) {
                        Err(e) => Err(e),
                        Ok((port, n3)) => {
                            let s3 = after(s2, n3 as int);
                            match spec_connection_state(s3) {
                                Err(e) => Err(e),
                                Ok((next, n4)) => Ok(
                                    ((version, addr, port as u16, next), n1 + n2 + n3 + n4),
                                ),
                            }
                        },
                    }
                },
            }
        },
    }
}

/// A whole handshake frame body: id 0, the fields, and nothing after them.
pub open spec fn spec_handshake_packet(b: Seq<u8>) -> Result<HandshakeModel, ParseError> {
    match spec_varint32(b) {
        Err(e) => Err(e),
        Ok((id, n)) => if id != 0 {
            Err(ParseError::UnknownPacketId(id))
        } else {
            match spec_handshake_fields(after(b, n as int)) {
                Err(e) => Err(e),
                Ok((m, k)) => if n + k != b.len() {
                    Err(ParseError::TrailingBytes)
                } else {
                    Ok(m)
                },
            }
        },
    }
}

/// Reads the body of a handshake-phase frame.
pub fn read_handshake(body: &[u8]) -> (r: Result<Handshake, ParseError>)
    ensures
        match r {
            Ok(p) => spec_handshake_packet(body@) == Ok::<HandshakeModel, ParseError>(p.model()),
            Err(e) => spec_handshake_packet(body@) == Err::<HandshakeModel, ParseError>(e),
        },
{
    let (b1, id) = match packet_id(body) {
        Ok(x) => x,
        Err(e) => return Err(e),
    };
    if id != 0 {
        return Err(ParseError::UnknownPacketId(id));
    }
    let (b2, version) = match varint::<u32>(b1) {
        Ok(x) => x,
        Err(e) => return Err(e),
    };
    let (b3, addr) = match var_str(b2) {
        Ok(x) => x,
        Err(e) => return Err(e),
    };
    let (b4, port) = match be_u16(b3) {
        Ok(x) => x,
        Err(e) => return Err(e),
    };
    let (b5, next) = match connection_state(b4) {
        Ok(x) => x,
        Err(e) => return Err(e),
    };
    proof {
        lemma_suffix_trans(b1@, b2@, b3@);
        lemma_suffix_trans(b1@, b3@, b4@);
        lemma_suffix_trans(b1@, b4@, b5@);
        lemma_suffix_trans(body@, b1@, b5@);
    }
    if b5.len() != 0 {
        return Err(ParseError::TrailingBytes);
    }
    Ok(
        Handshake {
            protocol_version: version,
            server_address: addr.to_owned(),
            server_port: port,
            next_state: next,
        },
    )
}

// ---------------------------------------------------------------------------
// Status.

/// The packets of the status phase.
#[derive(Debug, Clone, Copy, PartialEq, Eq, Structural)]
pub enum StatusPacket {
    /// Id 0: asks for the server's status.
    Request,
    /// Id 1: asks for the payload to be echoed.
    Ping(u64),
}

/// A whole status frame body.
pub open spec fn spec_status_packet(b: Seq<u8>) -> Result<StatusPacket, ParseError> {
    match spec_varint32(b) {
        Err(e) => Err(e),
        Ok((id, n)) => if id == 0 {
            if n != b.len() {
                Err(ParseError::TrailingBytes)
            } else {
                Ok(StatusPacket::Request)
            }
        } else if id == 1 {
            match spec_be(after(b, n as int), 8) {
                Err(e) => Err(e),
                Ok((v, k)) => if n + k != b.len() {
                    Err(ParseError::TrailingBytes)
                } else {
                    Ok(StatusPacket::Ping(v as u64))
                },
            }
        } else {
            Err(ParseError::UnknownPacketId(id))
        },
    }
}

/// Reads the body of a status-phase frame.
pub fn read_status(body: &[u8]) -> (r: Result<StatusPacket, ParseError>)
    ensures
        match r {
            Ok(p) => spec_status_packet(body@) == Ok::<StatusPacket, ParseError>(p),
            Err(e) => spec_status_packet(body@) == Err::<StatusPacket, ParseError>(e),
        },
{
    let (b1, id) = match packet_id(body) {
        Ok(x) => x,
        Err(e) => return Err(e),
    };
    if id == 0 {
        if b1.len() != 0 {
            return Err(ParseError::TrailingBytes);
        }
        Ok(StatusPacket::Request)
    } else if id == 1 {
        let (b2, v) = match be_u64(b1) {
            Ok(x) => x,
            Err(e) => return Err(e),
        };
        proof {
            lemma_suffix_trans(body@, b1@, b2@);
        }
        if b2.len() != 0 {
            return Err(ParseError::TrailingBytes);
        }
        Ok(StatusPacket::Ping(v))
    } else {
        Err(ParseError::UnknownPacketId(id))
    }
}

// ---------------------------------------------------------------------------
// Login.

/// The packets of the login phase.
#[derive(Debug, Clone, PartialEq, Eq)]
pub enum LoginPacket {
    /// Id 0: the player's name.
    LoginStart { username: String },
    /// Id 1: the shared secret and verify token, each encrypted with the
    /// server's public key.
    EncryptionResponse { shared_secret: Vec<u8>, verify_token: Vec<u8> },
}

/// A login packet's fields as bytes.
pub enum LoginModel {
    Start(Seq<u8>),
    Response(Seq<u8>, Seq<u8>),
}

impl LoginPacket {
    pub open spec fn model(&self) -> LoginModel {
        match self {
            LoginPacket::LoginStart { username } => LoginModel::Start(encode_utf8(username@)),
            LoginPacket::EncryptionResponse { shared_secret, verify_token } => LoginModel::Response(
                shared_secret@,
                verify_token@,
            ),
        }
    }
}

/// A whole login frame body.
pub open spec fn spec_login_packet(b: Seq<u8>) -> Result<LoginModel, ParseError> {
    match spec_varint32(b) {
        Err(e) => Err(e),
        Ok((id, n)) => {
            let s1 = after(b, n as int);
            if id == 0 {
                match spec_var_str(s1, MAX_USERNAME_LENGTH as nat) {
                    Err(e) => Err(e),
                    Ok((name, k)) => if n + k != b.len() {
                        Err(ParseError::TrailingBytes)
                    } else {
                        Ok(LoginModel::Start(name))
                    },
                }
            } else if id == 1 {
                match spec_var_bytes(s1) {
                    Err(e) => Err(e),
                    Ok((secret, k1)) => match spec_var_bytes(after(s1, k1 as int)) {
                        Err(e) => Err(e),
                        Ok((token, k2)) => if n + k1 + k2 != b.len() {
                            Err(ParseError::TrailingBytes)
                        } else {
                            Ok(LoginModel::Response(secret, token))
                        },
                    },
                }
            } else {
                Err(ParseError::UnknownPacketId(id))
            }
        },
    }
}

/// Reads the body of a login-phase frame.
pub fn read_login(body: &[u8]) -> (r: Result<LoginPacket, ParseError>)
    ensures
        match r {
            Ok(p) => spec_login_packet(body@) == Ok::<LoginModel, ParseError>(p.model()),
            Err(e) => spec_login_packet(body@) == Err::<LoginModel, ParseError>(e),
        },
{
    let (b1, id) = match packet_id(body) {
        Ok(x) => x,
        Err(e) => return Err(e),
    };
    if id == 0 {
        let (b2, name) = match var_str_with_max_length(b1, MAX_USERNAME_LENGTH) {
            Ok(x) => x,
            Err(e) => return Err(e),
        };
        proof {
            lemma_suffix_trans(body@, b1@, b2@);
        }
        if b2.len() != 0 {
            return Err(ParseError::TrailingBytes);
        }
        Ok(LoginPacket::LoginStart { username: name.to_owned() })
    } else if id == 1 {
        let (b2, secret) = match var_bytes(b1) {
            Ok(x) => x,
            Err(e) => return Err(e),
        };
        let (b3, token) = match var_bytes(b2) {
            Ok(x) => x,
            Err(e) => return Err(e),
        };
        proof {
            lemma_suffix_trans(b1@, b2@, b3@);
            lemma_suffix_trans(body@, b1@, b3@);
        }
        if b3.len() != 0 {
            return Err(ParseError::TrailingBytes);
        }
        Ok(
            LoginPacket::EncryptionResponse {
                shared_secret: slice_to_vec(secret),
                verify_token: slice_to_vec(token),
            },
        )
    } else {
        Err(ParseError::UnknownPacketId(id))
    }
}

// ---------------------------------------------------------------------------
// Round trips.

/// A frame: the varint length of the payload, then the payload.
pub open spec fn frame_of(payload: Seq<u8>) -> Seq<u8> {
    encode_spec(payload.len()) + payload
}

/// Reading a frame gives back its payload and consumes exactly the frame,
/// whatever follows it.
pub proof fn lemma_frame_round_trip(payload: Seq<u8>, rest: Seq<u8>)
    requires
        payload.len() <= u32::MAX,
    ensures
        spec_var_bytes(frame_of(payload) + rest) == Ok::<(Seq<u8>, nat), ParseError>(
            (payload, frame_of(payload).len()),
        ),
{
    let e = encode_spec(payload.len());
    lemma_varint_round_trip::<u32>(payload.len() as u32, payload + rest);
    assert(frame_of(payload) + rest =~= e + (payload + rest));
    assert((e + (payload + rest)).subrange(e.len() as int, e.len() + payload.len() as int) =~= payload);
}

/// Big-endian bytes read back as the number they were made from.
pub proof fn lemma_be_round_trip(v: nat, n: nat)
    requires
        v < pow256(n),
    ensures
        be_value(be_bytes(v, n)) == v,
        be_bytes(v, n).len() == n,
    decreases n,
{
    lemma_be_bytes_len(v, n);
    if n > 0 {
        lemma_fundamental_div_mod(v as int, 256);
        assert(v / 256 < pow256((n - 1) as nat));
        lemma_be_round_trip(v / 256, (n - 1) as nat);
        let b = be_bytes(v, n);
        assert(b.drop_last() =~= be_bytes(v / 256, (n - 1) as nat));
    } else {
        assert(be_bytes(v, n) =~= Seq::<u8>::empty());
    }
}

/// A ping composed as the server writes its pong (id 1, then the payload
/// as a big-endian `u64`) reads back as the same ping.
pub proof fn lemma_ping_round_trip(v: u64)
    ensures
        spec_status_packet(encode_spec(1) + be_bytes(v as nat, 8)) == Ok::<StatusPacket, ParseError>(
            StatusPacket::Ping(v),
        ),
{
    let b = be_bytes(v as nat, 8);
    reveal_with_fuel(pow256, 9);
    lemma_be_round_trip(v as nat, 8);
    lemma_varint_round_trip::<u32>(1, b);
    let s = encode_spec(1) + b;
    assert(encode_spec(1) =~= seq![1u8]);
    assert(after(s, 1) =~= b);
    assert(b.subrange(0, 8) =~= b);
}

/// A login start composed with a name of at most 16 bytes reads back as
/// the same name.
pub proof fn lemma_login_start_round_trip(name: Seq<char>)
    requires
        encode_utf8(name).len() <= MAX_USERNAME_LENGTH,
    ensures
        spec_login_packet(encode_spec(0) + var_data_bytes(encode_utf8(name))) == Ok::<
            LoginModel,
            ParseError,
        >(LoginModel::Start(encode_utf8(name))),
{
    let n = encode_utf8(name);
    encode_utf8_valid_utf8(name);
    lemma_varint_round_trip::<u32>(0, var_data_bytes(n));
    lemma_varint_round_trip::<u32>(n.len() as u32, n);
    let s = encode_spec(0) + var_data_bytes(n);
    assert(encode_spec(0) =~= seq![0u8]);
    assert(after(s, 1) =~= var_data_bytes(n));
    assert(var_data_bytes(n) =~= encode_spec(n.len()) + n);
    let e = encode_spec(n.len());
    assert((e + n).subrange(e.len() as int, e.len() + n.len() as int) =~= n);
}

/// The next-state field's value for a state a handshake may ask for.
pub open spec fn next_state_id(next: ConnectionState) -> nat {
    if next == ConnectionState::Status {
        1
    } else {
        2
    }
}

/// A handshake's fields composed one after another.
pub open spec fn handshake_fields_bytes(version: u32, address: Seq<u8>, port: u16, next: ConnectionState) -> Seq<u8> {
    encode_spec(version as nat) + var_data_bytes(address) + be_bytes(port as nat, 2) + encode_spec(
        next_state_id(next),
    )
}

proof fn lemma_handshake_fields_round_trip(version: u32, a: Seq<u8>, port: u16, next: ConnectionState)
    requires
        valid_utf8(a),
        a.len() <= DEFAULT_MAX_STRING_LENGTH,
        next == ConnectionState::Status || next == ConnectionState::Login,
    ensures
        spec_handshake_fields(handshake_fields_bytes(version, a, port, next)) == Ok::<
            (HandshakeModel, nat),
            ParseError,
        >(((version, a, port, next), handshake_fields_bytes(version, a, port, next).len())),
{
    let e_ver = encode_spec(version as nat);
    let e_len = encode_spec(a.len());
    let p = be_bytes(port as nat, 2);
    let e_next = encode_spec(next_state_id(next));
    reveal_with_fuel(pow256, 3);
    lemma_be_round_trip(port as nat, 2);
    let s0 = handshake_fields_bytes(version, a, port, next);
    let s1 = e_len + a + p + e_next;
    let s2 = p + e_next;
    lemma_varint_round_trip::<u32>(version, s1);
    assert(s0 =~= e_ver + s1);
    assert(after(s0, e_ver.len() as int) =~= s1);
    lemma_varint_round_trip::<u32>(a.len() as u32, a + s2);
    assert(s1 =~= e_len + (a + s2));
    assert((e_len + (a + s2)).subrange(e_len.len() as int, e_len.len() + a.len() as int) =~= a);
    assert(after(s1, e_len.len() + a.len() as int) =~= s2);
    assert(s2.subrange(0, 2) =~= p);
    assert(after(s2, 2) =~= e_next);
    lemma_varint_round_trip::<u32>(next_state_id(next) as u32, Seq::empty());
    assert(e_next + Seq::<u8>::empty() =~= e_next);
}

/// A handshake composed field by field (varint version, address string,
/// big-endian port, varint next state) after id 0 reads back as the same
/// handshake.
pub proof fn lemma_handshake_round_trip(version: u32, address: Seq<char>, port: u16, next: ConnectionState)
    requires
        encode_utf8(address).len() <= DEFAULT_MAX_STRING_LENGTH,
        next == ConnectionState::Status || next == ConnectionState::Login,
    ensures
        spec_handshake_packet(
            encode_spec(0) + handshake_fields_bytes(version, encode_utf8(address), port, next),
        ) == Ok::<HandshakeModel, ParseError>((version, encode_utf8(address), port, next)),
{
    let a = encode_utf8(address);
    encode_utf8_valid_utf8(address);
    let f = handshake_fields_bytes(version, a, port, next);
    lemma_handshake_fields_round_trip(version, a, port, next);
    lemma_varint_round_trip::<u32>(0, f);
    assert(encode_spec(0) =~= seq![0u8]);
    assert(after(encode_spec(0) + f, 1) =~= f);
}

} // verus!
