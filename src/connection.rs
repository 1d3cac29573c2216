//! The per-connection protocol engine. It performs no I/O: the caller hands
//! it the bytes read from the socket, writes out what it queues, and carries
//! out the outside work that a [`Step`] asks for (a status snapshot, a check
//! with the session service, joining the server's roster).
use vstd::prelude::*;
use vstd::string::*;
use vstd::utf8::*;

use crate::auth::{
    append_bytes, cfb8_decrypt, cfb8_encrypt, mojang_hex, session_hash_input, session_server_hash,
    sha1_of, server_id, server_id_bytes, token_accepted, verify_token_matches, AuthSession,
    Keys, StreamCipher,
};
use crate::builder::{be_bytes, lemma_be_bytes_len, var_data_bytes, ResponseBuilder, ToResponseField};
use crate::packets::{
    read_handshake, read_login, read_status, spec_handshake_packet, spec_login_packet,
    spec_status_packet, LoginModel, LoginPacket, StatusPacket,
};
use crate::parse::{spec_var_bytes, var_bytes, ParseError};
use crate::play::{read_play, spec_play_outcome};
use crate::server::Player;
use crate::state::{legal_transition, lemma_reachable_trans, reachable, ConnectionState};
use crate::varint::{encode_spec, lemma_encode_fits, serialize_and_append};

verus! {

broadcast use vstd::string::group_string_axioms, vstd::utf8::group_utf8_lib;

/// Why a connection ends.
#[derive(Debug, Clone, Copy, PartialEq, Eq)]
pub enum ConnError {
    /// A frame or packet did not parse.
    Parse(ParseError),
    /// A ciphertext from the client did not decrypt.
    Decryption,
    /// An encryption response arrived without a login in progress.
    NotInAuthSession,
    /// The decrypted verify token does not begin with the one sent.
    MismatchedVerifyToken,
    /// The shared secret is not a 16-byte AES key.
    InvalidSharedSecret,
    /// A login result arrived while no check with the session service was
    /// pending.
    NotAwaitingAuthentication,
    /// Kick packets exist only in the login and play phases.
    KickNotAllowed(ConnectionState),
}

/// What the caller has to do before feeding the connection more input.
#[derive(Debug)]
pub enum Step {
    /// Nothing: write out what is queued and read more bytes.
    Idle,
    /// Ask the server for its status and pass the JSON to
    /// [`Connection::send_status`].
    NeedStatus,
    /// Ask the session service whether `username` joined with `server_hash`,
    /// then call [`Connection::finish_login`].
    Authenticate { username: String, server_hash: String },
    /// The player entered play: add them to the server's roster, fetch the
    /// dimension data and pass it to [`Connection::join_game`].
    JoinGame(Player),
}

/// A connection's protocol state.
pub struct Connection {
    pub state: ConnectionState,
    pub online_mode: bool,
    pub keys: Keys,
    pub auth_session: Option<AuthSession>,
    /// The shared secret of a login waiting for the session service.
    pub pending_secret: Option<Vec<u8>>,
    pub encrypt_cipher: Option<StreamCipher>,
    pub decrypt_cipher: Option<StreamCipher>,
    /// Received bytes, already decrypted, not yet taken as frames.
    pub inbound: Vec<u8>,
    /// Bytes ready for the socket, already encrypted.
    pub outbound: Vec<u8>,
    /// Every frame queued so far, before encryption.
    pub sent: Ghost<Seq<u8>>,
}

/// A frame: the varint length of the payload, then the payload.
pub open spec fn frame_bytes(payload: Seq<u8>) -> Seq<u8> {
    encode_spec(payload.len()) + payload
}

/// A complete frame takes at least one byte.
proof fn lemma_frame_consumes(s: Seq<u8>)
    ensures
        spec_var_bytes(s) matches Ok((_, n)) ==> 1 <= n <= s.len(),
{
}

/// The bytes a cipher turns `plain` into when `before` is its state before
/// and `after` its state after.
pub open spec fn encrypted(before: StreamCipher, after: StreamCipher, plain: Seq<u8>) -> bool {
    &&& after.key() == before.key()
    &&& after.processed() == before.processed() + plain
}

/// `new` queued `frame` after what `old` had queued, encrypted when the
/// connection encrypts: the encryption of everything sent through the
/// cipher keeps what was output before as its prefix.
pub open spec fn queued(old: &Connection, new: &Connection, frame: Seq<u8>) -> bool {
    &&& new.sent@ == old.sent@ + frame
    &&& match (old.encrypt_cipher, new.encrypt_cipher) {
        (None, None) => new.outbound@ == old.outbound@ + frame,
        (Some(a), Some(b)) => {
            &&& encrypted(a, b, frame)
            &&& b.decrypts() == a.decrypts()
            &&& cfb8_encrypt(b.key(), b.processed()).len() == b.processed().len()
            &&& cfb8_encrypt(b.key(), b.processed()).subrange(0, a.processed().len() as int)
                == cfb8_encrypt(a.key(), a.processed())
            &&& new.outbound@ == old.outbound@ + cfb8_encrypt(b.key(), b.processed()).subrange(
                a.processed().len() as int,
                b.processed().len() as int,
            )
        },
        _ => false,
    }
}

/// Two frames queued one after the other were queued together.
pub proof fn lemma_queued_trans(a: &Connection, b: &Connection, c: &Connection, f: Seq<u8>, g: Seq<u8>)
    requires
        queued(a, b, f),
        queued(b, c, g),
        a.encrypt_cipher matches Some(x) ==> cfb8_encrypt(x.key(), x.processed()).len()
            == x.processed().len(),
    ensures
        queued(a, c, f + g),
{
    assert(c.sent@ =~= a.sent@ + (f + g));
    match (a.encrypt_cipher, b.encrypt_cipher, c.encrypt_cipher) {
        (None, None, None) => {
            assert(c.outbound@ =~= a.outbound@ + (f + g));
        },
        (Some(x), Some(y), Some(z)) => {
            let ez = cfb8_encrypt(z.key(), z.processed());
            let ey = cfb8_encrypt(y.key(), y.processed());
            let la = x.processed().len() as int;
            let lb = y.processed().len() as int;
            let lc = z.processed().len() as int;
            assert(z.processed() =~= x.processed() + (f + g));
            assert(ez.subrange(la, lb) =~= ez.subrange(0, lb).subrange(la, lb));
            assert(ez.subrange(0, la) =~= ez.subrange(0, lb).subrange(0, la));
            assert(ez.subrange(la, lc) =~= ez.subrange(la, lb) + ez.subrange(lb, lc));
            assert(c.outbound@ =~= a.outbound@ + ez.subrange(la, lc));
        },
        _ => {},
    }
}

/// `new` is `old` with, at most, other received bytes.
pub open spec fn same_except_inbound(old: &Connection, new: &Connection) -> bool {
    &&& new.state == old.state
    &&& new.online_mode == old.online_mode
    &&& new.keys == old.keys
    &&& new.auth_session == old.auth_session
    &&& new.pending_secret == old.pending_secret
    &&& new.encrypt_cipher == old.encrypt_cipher
    &&& new.decrypt_cipher == old.decrypt_cipher
    &&& new.outbound@ == old.outbound@
    &&& new.sent@ == old.sent@
}

/// `new` is `old` unchanged.
pub open spec fn unchanged(old: &Connection, new: &Connection) -> bool {
    same_except_inbound(old, new) && new.inbound@ == old.inbound@
}

/// The packets a connection sends, as bytes before framing.
pub open spec fn pong_packet(v: u64) -> Seq<u8> {
    encode_spec(1) + be_bytes(v as nat, 8)
}

pub open spec fn status_response_packet(json: Seq<u8>) -> Seq<u8> {
    encode_spec(0) + var_data_bytes(json)
}

pub open spec fn encryption_request_packet(pub_key_der: Seq<u8>, token: Seq<u8>) -> Seq<u8> {
    encode_spec(1) + var_data_bytes(server_id_bytes()) + var_data_bytes(pub_key_der)
        + var_data_bytes(token)
}

pub open spec fn login_success_packet(uuid: u128, username: Seq<char>) -> Seq<u8> {
    encode_spec(2) + be_bytes(uuid as nat, 16) + var_data_bytes(encode_utf8(username))
}

pub open spec fn kick_packet(id: nat, reason: Seq<u8>) -> Seq<u8> {
    encode_spec(id) + var_data_bytes(reason)
}

/// The connection's invariant: the phase-specific parts exist only in their
/// phase, and both directions are encrypted or neither is.
pub open spec fn wf(c: &Connection) -> bool {
    &&& c.auth_session is Some ==> c.state == ConnectionState::Login && c.online_mode
    &&& c.pending_secret is Some ==> c.state == ConnectionState::Login && c.online_mode
    &&& !(c.auth_session is Some && c.pending_secret is Some)
    &&& (c.encrypt_cipher is Some <==> c.decrypt_cipher is Some)
    &&& c.encrypt_cipher is Some ==> c.state == ConnectionState::Play
    &&& match c.encrypt_cipher {
        Some(e) => !e.decrypts() && cfb8_encrypt(e.key(), e.processed()).len() == e.processed().len(),
        None => true,
    }
    &&& match c.decrypt_cipher {
        Some(d) => d.decrypts() && cfb8_decrypt(d.key(), d.processed()).len() == d.processed().len(),
        None => true,
    }
    &&& c.keys.pub_key_der@.len() <= MAX_KEY_DER_LEN
}

/// The longest public key encoding a connection accepts; a 1024-bit key
/// takes about 160 bytes.
pub const MAX_KEY_DER_LEN: usize = 0x1_0000;

/// The longest dimension data a join-game packet carries: the packet's
/// length has to fit the 32-bit frame length.
pub const MAX_DIMENSION_INFO_LEN: usize = 0xffff_ff00;

/// How a connection may change in one call: the phase only moves forward,
/// encryption once on stays on, and the key pair stays the same.
pub open spec fn evolves(old: &Connection, new: &Connection) -> bool {
    &&& legal_transition(old.state, new.state)
    &&& old.encrypt_cipher is Some ==> new.encrypt_cipher is Some
    &&& old.decrypt_cipher is Some ==> new.decrypt_cipher is Some
    &&& new.online_mode == old.online_mode
    &&& new.keys.pub_key_der@ == old.keys.pub_key_der@
    &&& old.sent@.is_prefix_of(new.sent@)
}

/// How a connection may change over several calls: as [`evolves`], with
/// the phase moving by any number of legal moves.
pub open spec fn progresses(old: &Connection, new: &Connection) -> bool {
    &&& reachable(old.state, new.state)
    &&& old.encrypt_cipher is Some ==> new.encrypt_cipher is Some
    &&& old.decrypt_cipher is Some ==> new.decrypt_cipher is Some
    &&& new.online_mode == old.online_mode
    &&& new.keys.pub_key_der@ == old.keys.pub_key_der@
    &&& old.sent@.is_prefix_of(new.sent@)
}

proof fn lemma_progresses(a: &Connection, b: &Connection, c: &Connection)
    requires
        progresses(a, b),
        evolves(b, c),
    ensures
        progresses(a, c),
{
    lemma_reachable_trans(a.state, b.state, c.state);
    lemma_reachable_trans(b.state, c.state, c.state);
    assert(c.sent@.subrange(0, a.sent@.len() as int) =~= a.sent@) by {
        assert(b.sent@.subrange(0, a.sent@.len() as int) == a.sent@);
        assert(c.sent@.subrange(0, b.sent@.len() as int) == b.sent@);
    }
}

/// The chat component sent when a player is kicked after joining.
pub const KICK_MESSAGE: &'static str = "{\"text\":\"the game itself is not implemented yet; come back later\"}";

/// The chat component sent when a protocol error ends a connection.
pub const ERROR_KICK_MESSAGE: &'static str = "{\"text\":\"protocol error\"}";

/// The world every player joins.
pub const WORLD_NAME: &'static str = "hieronymus:wonderland";

/// The view and simulation distance announced at join, in chunks.
pub const VIEW_DISTANCE: u32 = 10;

/// Join game: entity id 0, not hardcore, survival, no previous game mode,
/// one world, the dimension data, the world's name, the hashed seed, the
/// player limit (ignored by clients), view and simulation distance, and the
/// four world flags.
pub open spec fn join_game_packet(dimension_info: Seq<u8>, world: Seq<u8>, hashed_seed: u64) -> Seq<u8> {
    encode_spec(0x26) + be_bytes(0, 4) + seq![0u8] + seq![0u8] + seq![0xffu8] + encode_spec(1)
        + var_data_bytes(world) + dimension_info + var_data_bytes(world) + be_bytes(
        hashed_seed as nat,
        8,
    ) + encode_spec(0) + encode_spec(10) + encode_spec(10) + seq![0u8] + seq![1u8] + seq![0u8]
        + seq![0u8]
}

/// The starting pose: x = 69.0 and z = 420.0 absolute, y = 0.0 relative,
/// yaw and pitch 0.0 absolute, as IEEE 754 bit patterns.
pub const SPAWN_X_BITS: u64 = 0x4051_4000_0000_0000;
pub const SPAWN_Y_BITS: u64 = 0;
pub const SPAWN_Z_BITS: u64 = 0x407A_4000_0000_0000;
pub const SPAWN_YAW_BITS: u32 = 0;
pub const SPAWN_PITCH_BITS: u32 = 0;

/// Player position and look: x, y, z as `f64` bit patterns, yaw and pitch
/// as `f32` bit patterns, the flags byte, the teleport id and no
/// dismounting.
pub open spec fn pose_packet(x: u64, y: u64, z: u64, yaw: u32, pitch: u32, flags: u8, teleport_id: u32) -> Seq<u8> {
    encode_spec(0x38) + be_bytes(x as nat, 8) + be_bytes(y as nat, 8) + be_bytes(z as nat, 8)
        + be_bytes(yaw as nat, 4) + be_bytes(pitch as nat, 4) + seq![flags] + encode_spec(
        teleport_id as nat,
    ) + seq![0u8]
}

/// The spawn pose: flags marking y as relative.
pub open spec fn position_packet(teleport_id: u32) -> Seq<u8> {
    pose_packet(SPAWN_X_BITS, SPAWN_Y_BITS, SPAWN_Z_BITS, SPAWN_YAW_BITS, SPAWN_PITCH_BITS, 0x02, teleport_id)
}

/// The value a coordinate carries.
pub open spec fn coordinate<T>(a: AbsOrRel<T>) -> T {
    match a {
        AbsOrRel::Absolute(t) => t,
        AbsOrRel::Relative(t) => t,
    }
}

/// `acc` with `bit` set when the coordinate is relative.
pub open spec fn with_flag<T>(acc: u8, a: AbsOrRel<T>, bit: u8) -> u8 {
    if a is Relative {
        acc | bit
    } else {
        acc
    }
}

/// The flags byte of a pose: bit 0 for a relative x, then y, z, yaw, pitch.
pub open spec fn pose_flags(
    x: AbsOrRel<u64>,
    y: AbsOrRel<u64>,
    z: AbsOrRel<u64>,
    yaw: AbsOrRel<u32>,
    pitch: AbsOrRel<u32>,
) -> u8 {
    with_flag(with_flag(with_flag(with_flag(with_flag(0, x, 1), y, 2), z, 4), yaw, 8), pitch, 16)
}

/// A coordinate given either absolutely or relative to the current one.
#[derive(Debug)]
pub enum AbsOrRel<T> {
    Absolute(T),
    Relative(T),
}

impl<T> AbsOrRel<T> {
    /// The value; a relative one also sets `flag` in `flags`.
    pub fn unwrap_and_set_flag(self, flag: u8, flags: &mut u8) -> (r: T)
        ensures
            match self {
                AbsOrRel::Absolute(t) => r == t && *final(flags) == *old(flags),
                AbsOrRel::Relative(t) => r == t && *final(flags) == *old(flags) | flag,
            },
    {
        match self {
            AbsOrRel::Absolute(t) => t,
            AbsOrRel::Relative(t) => {
                *flags = *flags | flag;
                t
            },
        }
    }
}

/// `new` is `old` with, at most, another phase and other received bytes.
pub open spec fn same_except_state(old: &Connection, new: &Connection) -> bool {
    &&& new.online_mode == old.online_mode
    &&& new.keys == old.keys
    &&& new.auth_session == old.auth_session
    &&& new.pending_secret == old.pending_secret
    &&& new.encrypt_cipher == old.encrypt_cipher
    &&& new.decrypt_cipher == old.decrypt_cipher
    &&& new.outbound@ == old.outbound@
    &&& new.sent@ == old.sent@
}

/// What handling one frame body does, phase by phase; the received bytes
/// are left alone. An error changes nothing.
pub open spec fn frame_handled(
    old: &Connection,
    body: Seq<u8>,
    r: Result<Step, ConnError>,
    new: &Connection,
) -> bool {
    &&& wf(new)
    &&& evolves(old, new)
    &&& r is Err ==> same_except_inbound(old, new)
    &&& old.state == ConnectionState::Handshake ==> match spec_handshake_packet(body) {
        Ok(m) => r matches Ok(Step::Idle) && new.state == m.3 && same_except_state(old, new),
        Err(e) => r == Err::<Step, ConnError>(ConnError::Parse(e)),
    }
    &&& old.state == ConnectionState::Status ==> match spec_status_packet(body) {
        Ok(StatusPacket::Request) => r matches Ok(Step::NeedStatus) && same_except_inbound(old, new),
        Ok(StatusPacket::Ping(v)) => {
            &&& r matches Ok(Step::Idle)
            &&& queued(old, new, frame_bytes(pong_packet(v)))
            &&& new.state == old.state
            &&& new.auth_session == old.auth_session
            &&& new.pending_secret == old.pending_secret
        },
        Err(e) => r == Err::<Step, ConnError>(ConnError::Parse(e)),
    }
    &&& old.state == ConnectionState::Login ==> match spec_login_packet(body) {
        Ok(LoginModel::Start(name)) => if old.online_mode {
            &&& r matches Ok(Step::Idle)
            &&& new.state == ConnectionState::Login
            &&& new.encrypt_cipher is None
            &&& new.auth_session matches Some(s) && encode_utf8(s.username@) == name && queued(
                old,
                new,
                frame_bytes(encryption_request_packet(old.keys.pub_key_der@, s.verify_token@)),
            )
        } else {
            &&& new.state == ConnectionState::Play
            &&& new.encrypt_cipher is None
            &&& new.auth_session is None
            &&& match r {
                Ok(Step::JoinGame(p)) => {
                    &&& encode_utf8(p.username@) == name
                    &&& (p.uuid as nat / 0x1000_0000_0000_0000_0000) % 16 == 4
                    &&& queued(old, new, frame_bytes(login_success_packet(p.uuid, p.username@)))
                },
                _ => false,
            }
        },
        Ok(LoginModel::Response(_, _)) => match r {
            Ok(Step::Authenticate { username, server_hash }) => {
                &&& old.auth_session matches Some(s) && username@ == s.username@
                &&& new.pending_secret matches Some(secret) && server_hash@ == mojang_hex(
                    sha1_of(session_hash_input(secret@, old.keys.pub_key_der@)),
                )
                &&& new.auth_session is None
                &&& new.state == ConnectionState::Login
                &&& new.encrypt_cipher is None && new.decrypt_cipher is None
                &&& new.outbound@ == old.outbound@ && new.sent@ == old.sent@
            },
            Ok(_) => false,
            Err(ConnError::NotInAuthSession) => old.auth_session is None,
            Err(ConnError::Decryption) => old.auth_session is Some,
            Err(ConnError::MismatchedVerifyToken) => old.auth_session is Some,
            Err(_) => false,
        },
        Err(e) => r == Err::<Step, ConnError>(ConnError::Parse(e)),
    }
    &&& old.state == ConnectionState::Play ==> match spec_play_outcome(body) {
        Ok(_) => r matches Ok(Step::Idle) && same_except_inbound(old, new),
        Err(e) => r == Err::<Step, ConnError>(ConnError::Parse(e)),
    }
}

/// Handling a frame depends on the connection, not on its other received
/// bytes.
proof fn lemma_frame_handled_inbound(
    a: &Connection,
    b: &Connection,
    body: Seq<u8>,
    r: Result<Step, ConnError>,
    n: &Connection,
)
    requires
        same_except_inbound(a, b),
        frame_handled(b, body, r, n),
    ensures
        frame_handled(a, body, r, n),
{
}

/// What handling the received bytes of `old` gives: an incomplete frame
/// leaves everything as it is and asks for more bytes; a malformed frame
/// length is an error that changes nothing; a complete frame is taken off
/// and handled as [`frame_handled`] says, and when that needs no outside
/// work the frames after it are handled the same way.
pub open spec fn packets_read(old: Connection, r: Result<Step, ConnError>, new: Connection) -> bool
    decreases old.inbound@.len(),
{
    match spec_var_bytes(old.inbound@) {
        Err(ParseError::Incomplete) => r matches Ok(Step::Idle) && unchanged(&old, &new),
        Err(e) => r == Err::<Step, ConnError>(ConnError::Parse(e)) && unchanged(&old, &new),
        Ok((body, n)) => exists|mid: Connection, r1: Result<Step, ConnError>|
            #![trigger frame_handled(&old, body, r1, &mid)]
            {
                &&& mid.inbound@ == old.inbound@.subrange(n as int, old.inbound@.len() as int)
                &&& frame_handled(&old, body, r1, &mid)
                &&& match r1 {
                    Ok(Step::Idle) => mid.inbound@.len() < old.inbound@.len() && packets_read(
                        mid,
                        r,
                        new,
                    ),
                    _ => r == r1 && unchanged(&mid, &new),
                }
            },
    }
}

/// `new` is `old` after the bytes `data` arrived: appended as they are, or
/// decrypted as the next part of the decryption of everything received
/// since decryption began.
pub open spec fn bytes_received(old: &Connection, data: Seq<u8>, new: &Connection) -> bool {
    &&& new.state == old.state
    &&& new.online_mode == old.online_mode
    &&& new.keys == old.keys
    &&& new.auth_session == old.auth_session
    &&& new.pending_secret == old.pending_secret
    &&& new.encrypt_cipher == old.encrypt_cipher
    &&& new.outbound@ == old.outbound@
    &&& new.sent@ == old.sent@
    &&& match (old.decrypt_cipher, new.decrypt_cipher) {
        (None, None) => new.inbound@ == old.inbound@ + data,
        (Some(a), Some(b)) => {
            &&& encrypted(a, b, data)
            &&& b.decrypts()
            &&& cfb8_decrypt(b.key(), b.processed()).len() == b.processed().len()
            &&& cfb8_decrypt(b.key(), b.processed()).subrange(0, a.processed().len() as int)
                == cfb8_decrypt(a.key(), a.processed())
            &&& new.inbound@ == old.inbound@ + cfb8_decrypt(b.key(), b.processed()).subrange(
                a.processed().len() as int,
                b.processed().len() as int,
            )
        },
        _ => false,
    }
}

/// Bytes that arrive in two reads are received as if they had arrived in
/// one: the decryption carries over from one read to the next.
pub proof fn lemma_split_reads(a: &Connection, b: &Connection, c: &Connection, d1: Seq<u8>, d2: Seq<u8>)
    requires
        wf(a),
        bytes_received(a, d1, b),
        bytes_received(b, d2, c),
    ensures
        bytes_received(a, d1 + d2, c),
{
    match (a.decrypt_cipher, b.decrypt_cipher, c.decrypt_cipher) {
        (None, None, None) => {
            assert(c.inbound@ =~= a.inbound@ + (d1 + d2));
        },
        (Some(x), Some(y), Some(z)) => {
            let dz = cfb8_decrypt(z.key(), z.processed());
            let la = x.processed().len() as int;
            let lb = y.processed().len() as int;
            let lc = z.processed().len() as int;
            assert(z.processed() =~= x.processed() + (d1 + d2));
            assert(dz.subrange(la, lb) =~= dz.subrange(0, lb).subrange(la, lb));
            assert(dz.subrange(0, la) =~= dz.subrange(0, lb).subrange(0, la));
            assert(dz.subrange(la, lc) =~= dz.subrange(la, lb) + dz.subrange(lb, lc));
            assert(c.inbound@ =~= a.inbound@ + dz.subrange(la, lc));
        },
        _ => {},
    }
}

impl Connection {
    /// A fresh connection in the handshake phase.
    pub fn new(keys: Keys, online_mode: bool) -> (r: Connection)
        requires
            keys.pub_key_der@.len() <= MAX_KEY_DER_LEN,
        ensures
            wf(&r),
            r.state == ConnectionState::Handshake,
            r.online_mode == online_mode,
            r.keys.pub_key_der@ == keys.pub_key_der@,
            r.inbound@.len() == 0,
            r.outbound@.len() == 0,
            r.sent@.len() == 0,
            r.encrypt_cipher is None,
    {
        Connection {
            state: ConnectionState::Handshake,
            online_mode,
            keys,
            auth_session: None,
            pending_secret: None,
            encrypt_cipher: None,
            decrypt_cipher: None,
            inbound: Vec::new(),
            outbound: Vec::new(),
            sent: Ghost(Seq::empty()),
        }
    }

    /// Takes the bytes queued for the socket.
    pub fn take_outbound(&mut self) -> (r: Vec<u8>)
        requires
            wf(&*old(self)),
        ensures
            r@ == old(self).outbound@,
            final(self).outbound@.len() == 0,
            final(self).state == old(self).state,
            final(self).inbound@ == old(self).inbound@,
            wf(&*final(self)),
            evolves(&*old(self), &*final(self)),
    {
        let mut out: Vec<u8> = Vec::new();
        std::mem::swap(&mut out, &mut self.outbound);
        proof {
            assert(self.sent@.is_prefix_of(self.sent@)) by {
                assert(self.sent@.subrange(0, self.sent@.len() as int) =~= self.sent@);
            }
        }
        out
    }

    /// Accepts bytes read from the socket, decrypting them when the
    /// connection decrypts.
    pub fn receive(&mut self, data: &[u8])
        requires
            wf(&*old(self)),
        ensures
            wf(&*final(self)),
            evolves(&*old(self), &*final(self)),
            bytes_received(&*old(self), data@, &*final(self)),
    {
        let mut buf: Vec<u8> = Vec::new();
        append_bytes(&mut buf, data);
        match &mut self.decrypt_cipher {
            Some(c) => c.decrypt(&mut buf),
            None => {},
        }
        append_bytes(&mut self.inbound, buf.as_slice());
        proof {
            assert(self.sent@.subrange(0, self.sent@.len() as int) =~= self.sent@);
        }
    }

    /// Frames `payload` and queues it, encrypted when the connection
    /// encrypts.
    fn queue(&mut self, payload: &[u8])
        requires
            payload@.len() <= u32::MAX,
            old(self).encrypt_cipher matches Some(e) ==> !e.decrypts(),
        ensures
            queued(&*old(self), &*final(self), frame_bytes(payload@)),
            final(self).state == old(self).state,
            final(self).online_mode == old(self).online_mode,
            final(self).keys == old(self).keys,
            final(self).auth_session == old(self).auth_session,
            final(self).pending_secret == old(self).pending_secret,
            final(self).decrypt_cipher == old(self).decrypt_cipher,
            final(self).inbound == old(self).inbound,
            old(self).encrypt_cipher is Some <==> final(self).encrypt_cipher is Some,
    {
        let mut frame: Vec<u8> = Vec::new();
        serialize_and_append(payload.len() as u32, &mut frame);
        append_bytes(&mut frame, payload);
        assert(frame@ =~= frame_bytes(payload@));
        let ghost plain = frame@;
        match &mut self.encrypt_cipher {
            Some(c) => c.encrypt(&mut frame),
            None => {},
        }
        append_bytes(&mut self.outbound, frame.as_slice());
        self.sent = Ghost(self.sent@ + plain);
    }

    /// Sends a composed packet.
    pub fn send(&mut self, packet: ResponseBuilder)
        requires
            packet@.len() <= u32::MAX,
            old(self).encrypt_cipher matches Some(e) ==> !e.decrypts(),
        ensures
            queued(&*old(self), &*final(self), frame_bytes(packet@)),
            final(self).state == old(self).state,
            final(self).online_mode == old(self).online_mode,
            final(self).keys == old(self).keys,
            final(self).auth_session == old(self).auth_session,
            final(self).pending_secret == old(self).pending_secret,
            final(self).decrypt_cipher == old(self).decrypt_cipher,
            final(self).inbound == old(self).inbound,
            old(self).encrypt_cipher is Some <==> final(self).encrypt_cipher is Some,
    {
        let bytes = packet.into_bytes();
        self.queue(bytes.as_slice());
    }

    /// Takes the next complete frame out of the received bytes: `None` when
    /// the bytes so far end inside a frame.
    pub fn next_frame(&mut self) -> (r: Result<Option<Vec<u8>>, ConnError>)
        requires
            wf(&*old(self)),
        ensures
            wf(&*final(self)),
            evolves(&*old(self), &*final(self)),
            same_except_inbound(&*old(self), &*final(self)),
            match spec_var_bytes(old(self).inbound@) {
                Ok((body, n)) => r matches Ok(Some(b)) && b@ == body && final(self).inbound@
                    == old(self).inbound@.subrange(n as int, old(self).inbound@.len() as int),
                Err(ParseError::Incomplete) => r matches Ok(None) && final(self).inbound@ == old(
                    self,
                ).inbound@,
                Err(e) => r == Err::<Option<Vec<u8>>, ConnError>(ConnError::Parse(e))
                    && final(self).inbound@ == old(self).inbound@,
            },
    {
        let body: Vec<u8>;
        let remaining: Vec<u8>;
        match var_bytes(self.inbound.as_slice()) {
            Ok((rest, data)) => {
                body = vstd::slice::slice_to_vec(data);
                remaining = vstd::slice::slice_to_vec(rest);
            },
            Err(ParseError::Incomplete) => {
                proof {
                    assert(self.sent@.subrange(0, self.sent@.len() as int) =~= self.sent@);
                }
                return Ok(None);
            },
            Err(e) => return Err(ConnError::Parse(e)),
        }
        self.inbound = remaining;
        proof {
            assert(self.sent@.subrange(0, self.sent@.len() as int) =~= self.sent@);
        }
        Ok(Some(body))
    }

    /// Handles every complete frame received so far, in order, until one
    /// needs outside work; the bytes of an unfinished frame stay buffered.
    pub fn read_packet(&mut self) -> (r: Result<Step, ConnError>)
        requires
            wf(&*old(self)),
        ensures
            wf(&*final(self)),
            progresses(&*old(self), &*final(self)),
            packets_read(*old(self), r, *final(self)),
    {
        proof {
            assert(self.sent@.subrange(0, self.sent@.len() as int) =~= self.sent@);
            lemma_reachable_trans(self.state, self.state, self.state);
        }
        loop
            invariant
                wf(&*self),
                progresses(&*old(self), &*self),
                forall|r: Result<Step, ConnError>, n: Connection|
                    #[trigger] packets_read(*self, r, n) ==> packets_read(*old(self), r, n),
            decreases self.inbound@.len(),
        {
            let ghost before = *self;
            let body = match self.next_frame() {
                Ok(Some(b)) => b,
                Ok(None) => {
                    proof {
                        assert(packets_read(before, Ok(Step::Idle), *self));
                        lemma_progresses(&*old(self), &before, &*self);
                    }
                    return Ok(Step::Idle);
                },
                Err(e) => {
                    proof {
                        assert(packets_read(before, Err(e), *self));
                        lemma_progresses(&*old(self), &before, &*self);
                    }
                    return Err(e);
                },
            };
            proof {
                lemma_progresses(&*old(self), &before, &*self);
                lemma_frame_consumes(before.inbound@);
            }
            let ghost taken = *self;
            let step = self.handle_frame(body.as_slice());
            proof {
                lemma_frame_handled_inbound(&before, &taken, body@, step, &*self);
                lemma_progresses(&*old(self), &taken, &*self);
            }
            match step {
                Ok(Step::Idle) => {
                    proof {
                        let mid = *self;
                        assert forall|r: Result<Step, ConnError>, n: Connection|
                            #[trigger] packets_read(mid, r, n) implies packets_read(before, r, n) by {
                            assert(frame_handled(&before, body@, Ok(Step::Idle), &mid));
                        }
                    }
                },
                other => {
                    proof {
                        let mid = *self;
                        assert(frame_handled(&before, body@, other, &mid));
                        assert(packets_read(before, other, mid));
                    }
                    return other;
                },
            }
        }
    }

    /// Handles one frame body according to the current phase.
    pub fn handle_frame(&mut self, body: &[u8]) -> (r: Result<Step, ConnError>)
        requires
            wf(&*old(self)),
        ensures
            frame_handled(&*old(self), body@, r, &*final(self)),
            final(self).inbound@ == old(self).inbound@,
    {
        match self.state {
            ConnectionState::Handshake => self.handle_handshake(body),
            ConnectionState::Status => self.handle_status(body),
            ConnectionState::Login => self.handle_login(body),
            ConnectionState::Play => self.handle_play(body),
        }
    }

    fn handle_handshake(&mut self, body: &[u8]) -> (r: Result<Step, ConnError>)
        requires
            wf(&*old(self)),
            old(self).state == ConnectionState::Handshake,
        ensures
            frame_handled(&*old(self), body@, r, &*final(self)),
            final(self).inbound@ == old(self).inbound@,
    {
        proof {
            assert(self.sent@.subrange(0, self.sent@.len() as int) =~= self.sent@);
        }
        let p = match read_handshake(body) {
            Ok(p) => p,
            Err(e) => return Err(ConnError::Parse(e)),
        };
        self.state = p.next_state;
        Ok(Step::Idle)
    }

    fn handle_status(&mut self, body: &[u8]) -> (r: Result<Step, ConnError>)
        requires
            wf(&*old(self)),
            old(self).state == ConnectionState::Status,
        ensures
            frame_handled(&*old(self), body@, r, &*final(self)),
            final(self).inbound@ == old(self).inbound@,
    {
        proof {
            assert(self.sent@.subrange(0, self.sent@.len() as int) =~= self.sent@);
        }
        let p = match read_status(body) {
            Ok(p) => p,
            Err(e) => return Err(ConnError::Parse(e)),
        };
        match p {
            StatusPacket::Request => Ok(Step::NeedStatus),
            StatusPacket::Ping(v) => {
                let mut b = ResponseBuilder::new(1);
                b.add(v);
                assert(b@ =~= pong_packet(v));
                proof {
                    lemma_encode_fits(1, 32);
                    lemma_be_bytes_len(v as nat, 8);
                }
                self.send(b);
                proof {
                    assert(self.sent@.subrange(0, old(self).sent@.len() as int) =~= old(self).sent@);
                }
                Ok(Step::Idle)
            },
        }
    }

    fn handle_login(&mut self, body: &[u8]) -> (r: Result<Step, ConnError>)
        requires
            wf(&*old(self)),
            old(self).state == ConnectionState::Login,
        ensures
            frame_handled(&*old(self), body@, r, &*final(self)),
            final(self).inbound@ == old(self).inbound@,
    {
        proof {
            assert(self.sent@.subrange(0, self.sent@.len() as int) =~= self.sent@);
        }
        let p = match read_login(body) {
            Ok(p) => p,
            Err(e) => return Err(ConnError::Parse(e)),
        };
        match p {
            LoginPacket::LoginStart { username } => self.login_start(username),
            LoginPacket::EncryptionResponse { shared_secret, verify_token } => {
                self.encryption_response(shared_secret.as_slice(), verify_token.as_slice())
            },
        }
    }

    fn handle_play(&mut self, body: &[u8]) -> (r: Result<Step, ConnError>)
        requires
            wf(&*old(self)),
            old(self).state == ConnectionState::Play,
        ensures
            frame_handled(&*old(self), body@, r, &*final(self)),
            final(self).inbound@ == old(self).inbound@,
    {
        proof {
            assert(self.sent@.subrange(0, self.sent@.len() as int) =~= self.sent@);
        }
        match read_play(body) {
            Ok(_) => Ok(Step::Idle),
            Err(e) => Err(ConnError::Parse(e)),
        }
    }

    /// A login start: online, remember the name and a fresh verify token and
    /// ask the client to encrypt; offline, admit the player at once.
    fn login_start(&mut self, username: String) -> (r: Result<Step, ConnError>)
        requires
            wf(&*old(self)),
            old(self).state == ConnectionState::Login,
            encode_utf8(username@).len() <= 16,
        ensures
            wf(&*final(self)),
            evolves(&*old(self), &*final(self)),
            final(self).inbound@ == old(self).inbound@,
            if old(self).online_mode {
                &&& r matches Ok(Step::Idle)
                &&& final(self).state == ConnectionState::Login
                &&& final(self).auth_session matches Some(s) && s.username@ == username@ && queued(
                    &*old(self),
                    &*final(self),
                    frame_bytes(encryption_request_packet(old(self).keys.pub_key_der@, s.verify_token@)),
                )
            } else {
                &&& final(self).state == ConnectionState::Play
                &&& final(self).auth_session is None
                &&& match r {
                    Ok(Step::JoinGame(p)) => {
                        &&& p.username@ == username@
                        &&& (p.uuid as nat / 0x1000_0000_0000_0000_0000) % 16 == 4
                        &&& queued(
                            &*old(self),
                            &*final(self),
                            frame_bytes(login_success_packet(p.uuid, p.username@)),
                        )
                    },
                    _ => false,
                }
            },
    {
        if self.online_mode {
            let session = AuthSession::new(username);
            let mut b = ResponseBuilder::new(1);
            let id = server_id();
            b.var_data(id.as_slice());
            b.var_data(self.keys.pub_key_der.as_slice());
            b.var_data(&session.verify_token);
            assert(b@ =~= encryption_request_packet(self.keys.pub_key_der@, session.verify_token@));
            proof {
                lemma_encode_fits(1, 32);
                lemma_encode_fits(20, 32);
                lemma_encode_fits(self.keys.pub_key_der@.len(), 32);
                lemma_encode_fits(8, 32);
            }
            self.auth_session = None;
            self.pending_secret = None;
            self.send(b);
            self.auth_session = Some(session);
            Ok(Step::Idle)
        } else {
            let player = Player { username, uuid: crate::auth::new_player_uuid() };
            self.login_success(&player);
            Ok(Step::JoinGame(player))
        }
    }

    /// Enters play and sends the login success packet.
    fn login_success(&mut self, player: &Player)
        requires
            wf(&*old(self)),
            old(self).state == ConnectionState::Login,
            encode_utf8(player.username@).len() <= 16,
        ensures
            wf(&*final(self)),
            evolves(&*old(self), &*final(self)),
            final(self).state == ConnectionState::Play,
            final(self).auth_session is None,
            final(self).pending_secret is None,
            final(self).inbound@ == old(self).inbound@,
            queued(&*old(self), &*final(self), frame_bytes(login_success_packet(player.uuid, player.username@))),
    {
        self.auth_session = None;
        self.pending_secret = None;
        self.state = ConnectionState::Play;
        let mut b = ResponseBuilder::new(2);
        b.add(player.uuid);
        assert(encode_utf8(player.username@).len() <= 16);
        b.add(&player.username);
        assert(b@ =~= login_success_packet(player.uuid, player.username@));
        proof {
            lemma_encode_fits(2, 32);
            lemma_be_bytes_len(player.uuid as nat, 16);
            lemma_encode_fits(encode_utf8(player.username@).len(), 32);
        }
        self.send(b);
    }

    /// An encryption response: decrypt the secret and the token, check the
    /// token, and hand back what the session service must confirm.
    fn encryption_response(&mut self, secret_enc: &[u8], token_enc: &[u8]) -> (r: Result<Step, ConnError>)
        requires
            wf(&*old(self)),
            old(self).state == ConnectionState::Login,
        ensures
            wf(&*final(self)),
            evolves(&*old(self), &*final(self)),
            final(self).inbound@ == old(self).inbound@,
            r is Err ==> same_except_inbound(&*old(self), &*final(self)),
            old(self).auth_session is None ==> r == Err::<Step, ConnError>(ConnError::NotInAuthSession),
            match r {
                Ok(Step::Authenticate { username, server_hash }) => {
                    &&& old(self).auth_session matches Some(s) && username@ == s.username@
                    &&& final(self).pending_secret matches Some(secret) && server_hash@ == mojang_hex(
                        sha1_of(session_hash_input(secret@, old(self).keys.pub_key_der@)),
                    )
                    &&& final(self).auth_session is None
                    &&& final(self).state == ConnectionState::Login
                    &&& final(self).encrypt_cipher is None && final(self).decrypt_cipher is None
                    &&& final(self).outbound@ == old(self).outbound@
                    &&& final(self).sent@ == old(self).sent@
                },
                Ok(_) => false,
                Err(ConnError::NotInAuthSession) => old(self).auth_session is None,
                Err(ConnError::Decryption) => old(self).auth_session is Some,
                Err(ConnError::MismatchedVerifyToken) => old(self).auth_session is Some,
                Err(_) => false,
            },
    {
        if self.auth_session.is_none() {
            return Err(ConnError::NotInAuthSession);
        }
        let secret = match self.keys.decrypt(secret_enc) {
            Ok(s) => s,
            Err(_) => return Err(ConnError::Decryption),
        };
        let token = match self.keys.decrypt(token_enc) {
            Ok(t) => t,
            Err(_) => return Err(ConnError::Decryption),
        };
        let checked = match &self.auth_session {
            Some(session) => check_encryption_response(
                session,
                secret,
                token.as_slice(),
                self.keys.pub_key_der.as_slice(),
            ),
            None => Err(ConnError::NotInAuthSession),
        };
        match checked {
            Ok((username, server_hash, secret)) => {
                self.auth_session = None;
                self.pending_secret = Some(secret);
                proof {
                    assert(self.sent@.subrange(0, self.sent@.len() as int) =~= self.sent@);
                }
                Ok(Step::Authenticate { username, server_hash })
            },
            Err(e) => {
                proof {
                    assert(self.sent@.subrange(0, self.sent@.len() as int) =~= self.sent@);
                }
                Err(e)
            },
        }
    }

    /// The session service confirmed the login: switch both directions to
    /// AES-128-CFB8 under the shared secret, enter play and send the login
    /// success packet, encrypted.
    pub fn finish_login(&mut self, uuid: u128, username: String) -> (r: Result<Step, ConnError>)
        requires
            wf(&*old(self)),
        ensures
            r is Ok ==> wf(&*final(self)) && evolves(&*old(self), &*final(self)),
            r is Err ==> unchanged(&*old(self), &*final(self)),
            match r {
                Ok(Step::JoinGame(p)) => {
                    &&& p.uuid == uuid && p.username@ == username@
                    &&& match (old(self).pending_secret, final(self).encrypt_cipher, final(self).decrypt_cipher) {
                        (Some(secret), Some(c), Some(d)) => {
                            &&& secret@.len() == 16
                            &&& c.key() == secret@ && d.key() == secret@
                            &&& c.processed() == frame_bytes(login_success_packet(uuid, username@))
                            &&& final(self).outbound@ == old(self).outbound@ + cfb8_encrypt(
                                secret@,
                                c.processed(),
                            )
                            &&& d.processed() == old(self).inbound@
                            &&& final(self).inbound@ == cfb8_decrypt(secret@, old(self).inbound@)
                        },
                        _ => false,
                    }
                    &&& final(self).state == ConnectionState::Play
                    &&& final(self).pending_secret is None
                    &&& final(self).sent@ == old(self).sent@ + frame_bytes(login_success_packet(uuid, username@))
                },
                Ok(_) => false,
                Err(ConnError::NotAwaitingAuthentication) => old(self).pending_secret is None,
                Err(ConnError::InvalidSharedSecret) => old(self).pending_secret matches Some(s) && s@.len() != 16,
                Err(ConnError::Parse(ParseError::StringTooLong(_))) => encode_utf8(username@).len() > 16,
                Err(_) => false,
            },
    {
        let secret = match &self.pending_secret {
            Some(s) => s,
            None => return Err(ConnError::NotAwaitingAuthentication),
        };
        let name_len = username.as_str().as_bytes().len();
        if name_len > 16 {
            let declared: u32 = if name_len > u32::MAX as usize {
                u32::MAX
            } else {
                name_len as u32
            };
            return Err(ConnError::Parse(ParseError::StringTooLong(declared)));
        }
        let enc = match StreamCipher::new_encryptor(secret.as_slice()) {
            Some(c) => c,
            None => return Err(ConnError::InvalidSharedSecret),
        };
        let mut dec = match StreamCipher::new_decryptor(secret.as_slice()) {
            Some(c) => c,
            None => return Err(ConnError::InvalidSharedSecret),
        };
        let player = Player { username, uuid };
        self.pending_secret = None;
        self.state = ConnectionState::Play;
        self.auth_session = None;
        // Whatever arrived after the encryption response was already
        // encrypted by the client.
        let mut pending: Vec<u8> = Vec::new();
        std::mem::swap(&mut pending, &mut self.inbound);
        let ghost received = pending@;
        dec.decrypt(&mut pending);
        proof {
            assert(pending@ =~= cfb8_decrypt(secret@, received));
        }
        self.inbound = pending;
        self.encrypt_cipher = Some(enc);
        self.decrypt_cipher = Some(dec);
        let mut b = ResponseBuilder::new(2);
        b.add(player.uuid);
        assert(encode_utf8(player.username@).len() <= 16);
        b.add(&player.username);
        assert(b@ =~= login_success_packet(player.uuid, player.username@));
        proof {
            lemma_encode_fits(2, 32);
            lemma_be_bytes_len(player.uuid as nat, 16);
            lemma_encode_fits(encode_utf8(player.username@).len(), 32);
        }
        self.send(b);
        Ok(Step::JoinGame(player))
    }

    /// The join-game preamble with the given hashed seed and teleport id:
    /// join game, the spawn pose, and the kick that ends the session, since
    /// the game itself is not run.
    pub fn join_game_with(&mut self, dimension_info: &[u8], hashed_seed: u64, teleport_id: u32) -> (r:
        Result<(), ConnError>)
        requires
            wf(&*old(self)),
            old(self).state == ConnectionState::Play,
            dimension_info@.len() <= MAX_DIMENSION_INFO_LEN,
        ensures
            r is Ok,
            wf(&*final(self)),
            evolves(&*old(self), &*final(self)),
            final(self).state == ConnectionState::Play,
            queued(
                &*old(self),
                &*final(self),
                frame_bytes(join_game_packet(dimension_info@, WORLD_NAME.spec_bytes(), hashed_seed))
                    + frame_bytes(position_packet(teleport_id)) + frame_bytes(
                    kick_packet(0x1a, KICK_MESSAGE.spec_bytes()),
                ),
            ),
    {
        proof {
            reveal_strlit("hieronymus:wonderland");
            reveal_strlit("{\"text\":\"the game itself is not implemented yet; come back later\"}");
        }
        assert(WORLD_NAME@.len() == 21);
        assert(is_ascii(WORLD_NAME));
        assert(WORLD_NAME.spec_bytes().len() == 21);
        assert(KICK_MESSAGE@.len() == 66);
        assert(is_ascii(KICK_MESSAGE));
        assert(KICK_MESSAGE.spec_bytes().len() == 66);
        let world = WORLD_NAME.as_bytes();
        let mut b = ResponseBuilder::new(0x26);
        b.add(0u32);
        b.add(false);
        b.add(0u8);
        b.add(-1i8);
        let names: [&str; 1] = [WORLD_NAME];
        proof {
            let ns = names@;
            assert(ns.len() == 1 && ns[0] == WORLD_NAME);
            assert(ns.drop_last() =~= Seq::<&str>::empty());
            assert(crate::builder::fields_bytes(ns) == crate::builder::fields_bytes(ns.drop_last())
                + ns.last().field_bytes());
            assert(crate::builder::fields_bytes(ns) =~= var_data_bytes(WORLD_NAME.spec_bytes()));
        }
        b.add_many(&names);
        b.raw_data(dimension_info);
        b.add(WORLD_NAME);
        b.add(hashed_seed);
        b.varint(0u32);
        b.varint(VIEW_DISTANCE);
        b.varint(VIEW_DISTANCE);
        b.add(false);
        b.add(true);
        b.add(false);
        b.add(false);
        proof {
            lemma_be_bytes_len(0, 4);
            lemma_be_bytes_len(hashed_seed as nat, 8);
            lemma_encode_fits(0x26, 32);
            lemma_encode_fits(1, 32);
            lemma_encode_fits(0, 32);
            lemma_encode_fits(10, 32);
            lemma_encode_fits(WORLD_NAME.spec_bytes().len(), 32);
        }
        assert(b@ =~= join_game_packet(dimension_info@, world@, hashed_seed));
        let ghost c0 = *self;
        let ghost s0 = self.sent@;
        self.send(b);
        let ghost c1 = *self;
        self.player_position_and_look(
            AbsOrRel::Absolute(SPAWN_X_BITS),
            AbsOrRel::Relative(SPAWN_Y_BITS),
            AbsOrRel::Absolute(SPAWN_Z_BITS),
            AbsOrRel::Absolute(SPAWN_YAW_BITS),
            AbsOrRel::Absolute(SPAWN_PITCH_BITS),
            teleport_id,
        );
        let ghost c2 = *self;
        proof {
            assert(0u8 | 0x02u8 == 0x02u8) by (bit_vector);
            assert(pose_flags(
                AbsOrRel::Absolute(SPAWN_X_BITS),
                AbsOrRel::Relative(SPAWN_Y_BITS),
                AbsOrRel::Absolute(SPAWN_Z_BITS),
                AbsOrRel::Absolute(SPAWN_YAW_BITS),
                AbsOrRel::Absolute(SPAWN_PITCH_BITS),
            ) == 0x02u8);
        }
        let r = self.kick(KICK_MESSAGE);
        proof {
            let f1 = frame_bytes(join_game_packet(dimension_info@, WORLD_NAME.spec_bytes(), hashed_seed));
            let f2 = frame_bytes(position_packet(teleport_id));
            let f3 = frame_bytes(kick_packet(0x1a, KICK_MESSAGE.spec_bytes()));
            lemma_queued_trans(&c0, &c1, &c2, f1, f2);
            lemma_queued_trans(&c0, &c2, &*self, f1 + f2, f3);
            assert(s0.is_prefix_of(self.sent@)) by {
                assert(self.sent@.subrange(0, s0.len() as int) =~= s0);
            }
        }
        r
    }

    /// The join-game preamble with a random hashed seed and teleport id.
    pub fn join_game(&mut self, dimension_info: &[u8]) -> (r: Result<(), ConnError>)
        requires
            wf(&*old(self)),
            old(self).state == ConnectionState::Play,
            dimension_info@.len() <= MAX_DIMENSION_INFO_LEN,
        ensures
            r is Ok,
            wf(&*final(self)),
            evolves(&*old(self), &*final(self)),
            final(self).state == ConnectionState::Play,
            exists|hashed_seed: u64, teleport_id: u32|
                #![trigger join_game_packet(dimension_info@, WORLD_NAME.spec_bytes(), hashed_seed), position_packet(teleport_id)]
                queued(
                    &*old(self),
                    &*final(self),
                    frame_bytes(join_game_packet(dimension_info@, WORLD_NAME.spec_bytes(), hashed_seed))
                        + frame_bytes(position_packet(teleport_id)) + frame_bytes(
                        kick_packet(0x1a, KICK_MESSAGE.spec_bytes()),
                    ),
                ),
    {
        let hashed_seed = rand::random::<u64>();
        let teleport_id = rand::random::<u32>();
        self.join_game_with(dimension_info, hashed_seed, teleport_id)
    }

    /// Sends the player's position and look; relative coordinates set their
    /// bit in the flags byte (x, y, z, yaw, pitch from the lowest bit up).
    pub fn player_position_and_look(
        &mut self,
        x: AbsOrRel<u64>,
        y: AbsOrRel<u64>,
        z: AbsOrRel<u64>,
        yaw: AbsOrRel<u32>,
        pitch: AbsOrRel<u32>,
        teleport_id: u32,
    )
        requires
            wf(&*old(self)),
        ensures
            wf(&*final(self)),
            evolves(&*old(self), &*final(self)),
            final(self).state == old(self).state,
            queued(
                &*old(self),
                &*final(self),
                frame_bytes(
                    pose_packet(
                        coordinate(x),
                        coordinate(y),
                        coordinate(z),
                        coordinate(yaw),
                        coordinate(pitch),
                        pose_flags(x, y, z, yaw, pitch),
                        teleport_id,
                    ),
                ),
            ),
    {
        let ghost (gx, gy, gz, gyaw, gpitch) = (x, y, z, yaw, pitch);
        let mut flags: u8 = 0;
        let x = x.unwrap_and_set_flag(0b00001, &mut flags);
        let y = y.unwrap_and_set_flag(0b00010, &mut flags);
        let z = z.unwrap_and_set_flag(0b00100, &mut flags);
        let yaw = yaw.unwrap_and_set_flag(0b01000, &mut flags);
        let pitch = pitch.unwrap_and_set_flag(0b10000, &mut flags);
        let mut b = ResponseBuilder::new(0x38);
        b.add(x);
        b.add(y);
        b.add(z);
        b.add(yaw);
        b.add(pitch);
        b.add(flags);
        b.varint(teleport_id);
        b.add(false);
        proof {
            lemma_encode_fits(0x38, 32);
            lemma_encode_fits(teleport_id as nat, 32);
            lemma_be_bytes_len(x as nat, 8);
            lemma_be_bytes_len(y as nat, 8);
            lemma_be_bytes_len(z as nat, 8);
            lemma_be_bytes_len(yaw as nat, 4);
            lemma_be_bytes_len(pitch as nat, 4);
        }
        assert(flags == pose_flags(gx, gy, gz, gyaw, gpitch));
        assert(b@ =~= pose_packet(x, y, z, yaw, pitch, flags, teleport_id));
        self.send(b);
        proof {
            assert(self.sent@.subrange(0, old(self).sent@.len() as int) =~= old(self).sent@);
        }
    }

    /// Ends the connection after a protocol error: in the login and play
    /// phases the client gets a kick first; the other phases just close.
    pub fn close_on_error(&mut self)
        requires
            wf(&*old(self)),
        ensures
            wf(&*final(self)),
            evolves(&*old(self), &*final(self)),
            final(self).state == old(self).state,
            old(self).state == ConnectionState::Login ==> queued(
                &*old(self),
                &*final(self),
                frame_bytes(kick_packet(0, ERROR_KICK_MESSAGE.spec_bytes())),
            ),
            old(self).state == ConnectionState::Play ==> queued(
                &*old(self),
                &*final(self),
                frame_bytes(kick_packet(0x1a, ERROR_KICK_MESSAGE.spec_bytes())),
            ),
            (old(self).state == ConnectionState::Handshake || old(self).state
                == ConnectionState::Status) ==> unchanged(&*old(self), &*final(self)),
    {
        proof {
            reveal_strlit("{\"text\":\"protocol error\"}");
        }
        assert(ERROR_KICK_MESSAGE@.len() == 25);
        assert(is_ascii(ERROR_KICK_MESSAGE));
        assert(ERROR_KICK_MESSAGE.spec_bytes().len() == 25);
        let _ = self.kick(ERROR_KICK_MESSAGE);
    }

    /// Answers a status request with the server's status JSON.
    pub fn send_status(&mut self, json: &str) -> (r: Result<(), ConnError>)
        requires
            wf(&*old(self)),
        ensures
            wf(&*final(self)),
            evolves(&*old(self), &*final(self)),
            final(self).state == old(self).state,
            json.spec_bytes().len() <= u32::MAX - 8 ==> r is Ok && queued(
                &*old(self),
                &*final(self),
                frame_bytes(status_response_packet(json.spec_bytes())),
            ),
            json.spec_bytes().len() > u32::MAX - 8 ==> r is Err && final(self).sent@ == old(self).sent@,
    {
        if json.as_bytes().len() > u32::MAX as usize - 8 {
            proof {
                assert(self.sent@.subrange(0, self.sent@.len() as int) =~= self.sent@);
            }
            return Err(ConnError::Parse(ParseError::StringTooLong(u32::MAX)));
        }
        let mut b = ResponseBuilder::new(0);
        assert(json.spec_bytes().len() <= u32::MAX);
        b.add(json);
        assert(b@ =~= status_response_packet(json.spec_bytes()));
        proof {
            lemma_encode_fits(0, 32);
            lemma_encode_fits(json.spec_bytes().len(), 32);
        }
        self.send(b);
        proof {
            assert(old(self).sent@.is_prefix_of(self.sent@)) by {
                assert(self.sent@.subrange(0, old(self).sent@.len() as int) =~= old(self).sent@);
            }
        }
        Ok(())
    }

    /// Sends a kick packet with a JSON chat component as the reason; only
    /// the login and play phases have one.
    pub fn kick(&mut self, reason: &str) -> (r: Result<(), ConnError>)
        requires
            wf(&*old(self)),
            reason.spec_bytes().len() <= u32::MAX - 8,
        ensures
            wf(&*final(self)),
            evolves(&*old(self), &*final(self)),
            final(self).state == old(self).state,
            old(self).state == ConnectionState::Login ==> r is Ok && queued(
                &*old(self),
                &*final(self),
                frame_bytes(kick_packet(0, reason.spec_bytes())),
            ),
            old(self).state == ConnectionState::Play ==> r is Ok && queued(
                &*old(self),
                &*final(self),
                frame_bytes(kick_packet(0x1a, reason.spec_bytes())),
            ),
            (old(self).state == ConnectionState::Handshake || old(self).state
                == ConnectionState::Status) ==> unchanged(&*old(self), &*final(self)),
            (old(self).state == ConnectionState::Handshake || old(self).state
                == ConnectionState::Status) ==> r == Err::<(), ConnError>(
                ConnError::KickNotAllowed(old(self).state),
            ),
    {
        let packet_id: u32 = match self.state {
            ConnectionState::Login => 0,
            ConnectionState::Play => 0x1a,
            _ => {
                proof {
                    assert(self.sent@.subrange(0, self.sent@.len() as int) =~= self.sent@);
                }
                return Err(ConnError::KickNotAllowed(self.state));
            },
        };
        let mut b = ResponseBuilder::new(packet_id);
        b.add(reason);
        assert(b@ =~= kick_packet(packet_id as nat, reason.spec_bytes()));
        proof {
            lemma_encode_fits(packet_id as nat, 32);
            lemma_encode_fits(reason.spec_bytes().len(), 32);
        }
        self.send(b);
        proof {
            assert(self.sent@.subrange(0, old(self).sent@.len() as int) =~= old(self).sent@);
        }
        Ok(())
    }
}

/// The part of an encryption response that follows decryption: the token
/// must begin with the one sent; then the session hash is computed over the
/// shared secret. Returns the username, the hash and the secret.
pub fn check_encryption_response(
    session: &AuthSession,
    shared_secret: Vec<u8>,
    verify_token: &[u8],
    pub_key_der: &[u8],
) -> (r: Result<(String, String, Vec<u8>), ConnError>)
    ensures
        token_accepted(session.verify_token@, verify_token@) ==> match r {
            Ok((name, hash, secret)) => {
                &&& name@ == session.username@
                &&& secret@ == shared_secret@
                &&& hash@ == mojang_hex(sha1_of(session_hash_input(shared_secret@, pub_key_der@)))
            },
            Err(_) => false,
        },
        !token_accepted(session.verify_token@, verify_token@) ==> r == Err::<
            (String, String, Vec<u8>),
            ConnError,
        >(ConnError::MismatchedVerifyToken),
{
    if !verify_token_matches(&session.verify_token, verify_token) {
        return Err(ConnError::MismatchedVerifyToken);
    }
    let hash = session_server_hash(shared_secret.as_slice(), pub_key_der);
    Ok((session.username.clone(), hash, shared_secret))
}

} // verus!
