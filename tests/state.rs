use hieronymus::connection::Connection;
use hieronymus::auth::Keys;
use hieronymus::server::{Config, Player, Server, Version};
use hieronymus::state::ConnectionState;

#[test]
fn play_is_final_after_login() {
    let mut conn = Connection::new(Keys::new().unwrap(), false);
    conn.receive(b"\x10\x00\xf4\x05\x09127.0.0.1\x63\xdd\x02\x06\x00\x04Alex");
    conn.read_packet().unwrap();
    assert_eq!(conn.state, ConnectionState::Play);
    // A handshake sent in play is read as a play packet (teleport confirm),
    // never as a way back to an earlier phase.
    conn.receive(b"\x02\x00\x07");
    conn.read_packet().unwrap();
    assert_eq!(conn.state, ConnectionState::Play);
}

#[test]
fn status_lists_at_most_five_players() {
    let mut server = Server::new(
        Config { online_mode: false, max_players: 3, motd: "hi".to_string(), favicon_path: "f.png".to_string() },
        None,
    );
    for i in 0..7u128 {
        server.join_game(Player { username: format!("player{}", i), uuid: i });
    }
    let s = server.status();
    assert_eq!(s.online, 7);
    assert_eq!(s.max_players, 3);
    assert_eq!(s.sample.len(), 5);
    assert_eq!(s.sample[4].username, "player4");
    assert_eq!(s.protocol, 756);
    assert_eq!(s.version_name, "1.17.1");
    assert_eq!(Version::current().cmp(&Version { name: "1.17", protocol_version: 755 }), 1);
}

#[test]
fn favicon_is_a_png_data_url() {
    assert_eq!(hieronymus::server::favicon_data_url(b"abc"), "data:image/png;base64,YWJj");
}
