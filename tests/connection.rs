use aes::Aes128;
use cfb8::cipher::{AsyncStreamCipher, NewCipher};
use cfb8::Cfb8;
use hieronymus::auth::Keys;
use hieronymus::connection::{ConnError, Connection, Step};
use hieronymus::parse::var_bytes;
use hieronymus::server::{Config, Server};
use hieronymus::state::ConnectionState;
use rsa::{PaddingScheme, PublicKey, RsaPublicKey};

const HANDSHAKE_STATUS: &[u8] = b"\x10\x00\xf4\x05\x09127.0.0.1\x63\xdd\x01";
const HANDSHAKE_LOGIN: &[u8] = b"\x10\x00\xf4\x05\x09127.0.0.1\x63\xdd\x02";
const STATUS_REQUEST: &[u8] = b"\x01\x00";
const PING: &[u8] = b"\x09\x01\x00\x00\x00\x00\x00\x00\x00\x2a";

fn keys() -> Keys {
    Keys::new().unwrap()
}

fn config(online_mode: bool) -> Config {
    Config {
        online_mode,
        max_players: 20,
        motd: Config::default_motd(),
        favicon_path: Config::default_favicon_path(),
    }
}

fn status_json(server: &Server) -> String {
    let s = server.status();
    format!(
        "{{\"version\":{{\"name\":\"{}\",\"protocol\":{}}},\"players\":{{\"max\":{},\"online\":{},\"sample\":[]}},\"description\":{{\"text\":\"{}\"}}}}",
        s.version_name, s.protocol, s.max_players, s.online, s.motd
    )
}

/// Splits written bytes into frame bodies.
fn frames(mut bytes: &[u8]) -> Vec<Vec<u8>> {
    let mut out = vec![];
    while !bytes.is_empty() {
        let (rest, body) = var_bytes(bytes).unwrap();
        out.push(body.to_vec());
        bytes = rest;
    }
    out
}

fn expect_status_reply(conn: &mut Connection, server: &Server) {
    match conn.read_packet().unwrap() {
        Step::NeedStatus => {}
        other => panic!("expected a status request, got {:?}", other),
    }
    conn.send_status(&status_json(server)).unwrap();
    let out = frames(&conn.take_outbound());
    assert_eq!(out.len(), 1);
    assert_eq!(out[0][0], 0x00);
    let (rest, json) = hieronymus::parse::var_str(&out[0][1..]).unwrap();
    assert!(rest.is_empty());
    let v: serde_json::Value = serde_json::from_str(json).unwrap();
    assert_eq!(v["version"]["protocol"], 756);
    assert_eq!(v["players"]["max"], 20);
}

#[test]
fn status_ping() {
    let server = Server::new(config(false), None);
    let mut conn = Connection::new(keys(), false);
    conn.receive(HANDSHAKE_STATUS);
    assert!(matches!(conn.read_packet().unwrap(), Step::Idle));
    assert_eq!(conn.state, ConnectionState::Status);
    conn.receive(STATUS_REQUEST);
    expect_status_reply(&mut conn, &server);
    conn.receive(PING);
    assert!(matches!(conn.read_packet().unwrap(), Step::Idle));
    assert_eq!(conn.take_outbound(), b"\x09\x01\x00\x00\x00\x00\x00\x00\x00\x2a".to_vec());
}

#[test]
fn partial_frame_is_buffered() {
    let server = Server::new(config(false), None);
    let mut conn = Connection::new(keys(), false);
    let mut all = HANDSHAKE_STATUS.to_vec();
    all.extend_from_slice(STATUS_REQUEST);
    // The second read starts in the middle of the request's length varint.
    let cut = HANDSHAKE_STATUS.len();
    conn.receive(&all[..cut - 3]);
    assert!(matches!(conn.read_packet().unwrap(), Step::Idle));
    assert_eq!(conn.state, ConnectionState::Handshake);
    conn.receive(&all[cut - 3..cut]);
    assert!(matches!(conn.read_packet().unwrap(), Step::Idle));
    assert_eq!(conn.state, ConnectionState::Status);
    conn.receive(&all[cut..]);
    expect_status_reply(&mut conn, &server);
}

#[test]
fn two_packets_in_one_read() {
    let server = Server::new(config(false), None);
    let mut conn = Connection::new(keys(), false);
    let mut all = HANDSHAKE_STATUS.to_vec();
    all.extend_from_slice(STATUS_REQUEST);
    conn.receive(&all);
    expect_status_reply(&mut conn, &server);
    assert_eq!(conn.state, ConnectionState::Status);
}

#[test]
fn offline_login() {
    let mut server = Server::new(config(false), None);
    let mut conn = Connection::new(keys(), false);
    conn.receive(HANDSHAKE_LOGIN);
    conn.receive(b"\x06\x00\x04Alex");
    let player = match conn.read_packet().unwrap() {
        Step::JoinGame(p) => p,
        other => panic!("expected to join, got {:?}", other),
    };
    assert_eq!(player.username, "Alex");
    assert_eq!((player.uuid >> 76) & 0xf, 4);
    assert_eq!(conn.state, ConnectionState::Play);
    server.join_game(player.clone());
    conn.join_game(&[0x0a, 0x00, 0x00]).unwrap();
    let out = frames(&conn.take_outbound());
    let ids: Vec<u8> = out.iter().map(|f| f[0]).collect();
    assert_eq!(ids, vec![0x02, 0x26, 0x38, 0x1a]);
    assert_eq!(&out[0][1..17], &player.uuid.to_be_bytes());
    assert_eq!(&out[0][17..], b"\x04Alex");
    assert_eq!(server.players.len(), 1);
    assert_eq!(server.players[0].username, "Alex");
    assert_eq!(server.status().online, 1);
}

/// Runs an online login up to the encryption response, returning the
/// connection, the public key and the verify token the server sent.
fn online_until_request() -> (Connection, RsaPublicKey, Vec<u8>) {
    let keys = keys();
    let public = RsaPublicKey::from(&*keys.priv_key);
    let mut conn = Connection::new(keys, true);
    conn.receive(HANDSHAKE_LOGIN);
    conn.receive(b"\x07\x00\x05Notch");
    assert!(matches!(conn.read_packet().unwrap(), Step::Idle));
    let out = frames(&conn.take_outbound());
    assert_eq!(out.len(), 1);
    assert_eq!(out[0][0], 0x01);
    let (rest, server_id) = var_bytes(&out[0][1..]).unwrap();
    assert_eq!(server_id, b"hiero|rejectnormalcy");
    let (rest, _der) = var_bytes(rest).unwrap();
    let (rest, token) = var_bytes(rest).unwrap();
    assert!(rest.is_empty());
    assert_eq!(token.len(), 8);
    (conn, public, token.to_vec())
}

fn encryption_response(public: &RsaPublicKey, secret: &[u8], token: &[u8]) -> Vec<u8> {
    let mut rng = rand::rngs::OsRng;
    let s = public.encrypt(&mut rng, PaddingScheme::new_pkcs1v15_encrypt(), secret).unwrap();
    let t = public.encrypt(&mut rng, PaddingScheme::new_pkcs1v15_encrypt(), token).unwrap();
    let mut body = vec![0x01];
    hieronymus::varint::serialize_and_append(s.len() as u32, &mut body);
    body.extend_from_slice(&s);
    hieronymus::varint::serialize_and_append(t.len() as u32, &mut body);
    body.extend_from_slice(&t);
    let mut frame = vec![];
    hieronymus::varint::serialize_and_append(body.len() as u32, &mut frame);
    frame.extend_from_slice(&body);
    frame
}

#[test]
fn online_login_encrypts_after_authentication() {
    let (mut conn, public, token) = online_until_request();
    let secret = [0x42u8; 16];
    let mut padded = token.clone();
    padded.extend_from_slice(&[1, 2, 3]);
    conn.receive(&encryption_response(&public, &secret, &padded));
    match conn.read_packet().unwrap() {
        Step::Authenticate { username, server_hash } => {
            assert_eq!(username, "Notch");
            assert!(!server_hash.is_empty());
        }
        other => panic!("expected authentication, got {:?}", other),
    }
    let uuid = 0x11111111_2222_3333_4444_555555555555u128;
    match conn.finish_login(uuid, "Notch".to_string()).unwrap() {
        Step::JoinGame(p) => assert_eq!(p.uuid, uuid),
        other => panic!("expected to join, got {:?}", other),
    }
    assert_eq!(conn.state, ConnectionState::Play);
    let mut wire = conn.take_outbound();
    let mut dec = Cfb8::<Aes128>::new_from_slices(&secret, &secret).unwrap();
    dec.decrypt(&mut wire);
    let out = frames(&wire);
    assert_eq!(out.len(), 1);
    assert_eq!(out[0][0], 0x02);
    assert_eq!(&out[0][1..17], &uuid.to_be_bytes());
    assert_eq!(&out[0][17..], b"\x05Notch");

    // The client's keep-alive arrives encrypted and is still understood.
    let mut enc = Cfb8::<Aes128>::new_from_slices(&secret, &secret).unwrap();
    let mut keep_alive = b"\x09\x0f\x00\x00\x00\x00\x00\x00\x00\x01".to_vec();
    enc.encrypt(&mut keep_alive);
    conn.receive(&keep_alive);
    assert!(matches!(conn.read_packet().unwrap(), Step::Idle));
}

#[test]
fn tampered_verify_token_is_rejected() {
    let (mut conn, public, mut token) = online_until_request();
    token[0] ^= 0xff;
    conn.receive(&encryption_response(&public, &[0x42u8; 16], &token));
    assert_eq!(conn.read_packet().unwrap_err(), ConnError::MismatchedVerifyToken);
    assert_eq!(conn.state, ConnectionState::Login);
    assert!(conn.take_outbound().is_empty());
}

#[test]
fn kick_only_in_login_and_play() {
    let mut conn = Connection::new(keys(), false);
    assert_eq!(conn.kick("{}").unwrap_err(), ConnError::KickNotAllowed(ConnectionState::Handshake));
    conn.receive(HANDSHAKE_LOGIN);
    conn.read_packet().unwrap();
    conn.kick("{\"text\":\"bye\"}").unwrap();
    assert_eq!(conn.take_outbound(), b"\x10\x00\x0e{\"text\":\"bye\"}".to_vec());
}

#[test]
fn unknown_packet_ids_end_the_connection() {
    let mut conn = Connection::new(keys(), false);
    conn.receive(HANDSHAKE_STATUS);
    conn.receive(b"\x01\x05");
    assert_eq!(
        conn.read_packet().unwrap_err(),
        ConnError::Parse(hieronymus::parse::ParseError::UnknownPacketId(5))
    );
}

#[test]
fn protocol_errors_kick_only_in_login_and_play() {
    let mut conn = Connection::new(keys(), false);
    conn.close_on_error();
    assert!(conn.take_outbound().is_empty());
    conn.receive(HANDSHAKE_LOGIN);
    conn.read_packet().unwrap();
    conn.close_on_error();
    assert_eq!(conn.take_outbound(), b"\x1b\x00\x19{\"text\":\"protocol error\"}".to_vec());
}

#[test]
fn partial_frame_changes_nothing() {
    let mut conn = Connection::new(keys(), false);
    conn.receive(&HANDSHAKE_STATUS[..5]);
    assert!(matches!(conn.read_packet().unwrap(), Step::Idle));
    assert_eq!(conn.state, ConnectionState::Handshake);
    assert_eq!(conn.inbound, HANDSHAKE_STATUS[..5].to_vec());
    assert!(conn.take_outbound().is_empty());
}
