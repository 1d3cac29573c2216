//! The process-wide server state: the configuration, the game version, and
//! the roster of players who have joined, with the status snapshot that
//! status requests are answered from.
use vstd::prelude::*;

verus! {

/// The settings a server runs with.
#[derive(Debug, Clone)]
pub struct Config {
    pub online_mode: bool,
    pub max_players: usize,
    pub motd: String,
    pub favicon_path: String,
}

impl Config {
    /// Players are checked against the session service unless configured
    /// otherwise.
    pub fn default_online_mode() -> (r: bool)
        ensures
            r,
    {
        true
    }

    /// The player limit when none is configured.
    pub fn default_max_players() -> (r: usize)
        ensures
            r == 20,
    {
        20
    }

    /// The message of the day when none is configured.
    pub fn default_motd() -> (r: String)
        ensures
            r@ == "Just another impostor Minecraft server"@,
    {
        String::from_str("Just another impostor Minecraft server")
    }

    /// Where the server icon is read from when no path is configured.
    pub fn default_favicon_path() -> (r: String)
        ensures
            r@ == "favicon.png"@,
    {
        String::from_str("favicon.png")
    }
}

/// The standard base64 encoding of `b`, with padding.
pub uninterp spec fn base64_of(b: Seq<u8>) -> Seq<char>;

/// Relies on `base64::encode_config_buf` with the standard alphabet: it
/// appends the padded base64 encoding of `input` to `buf`.
#[verifier::external_body]
fn base64_append(input: &[u8], buf: &mut String)
    ensures
        final(buf)@ == old(buf)@ + base64_of(input@),
{
    base64::encode_config_buf(input, base64::STANDARD, buf)
}

/// The prefix of a PNG data URL.
pub const PNG_DATA_URL_PREFIX: &'static str = "data:image/png;base64,";

/// A PNG image as the data URL a status reply carries as the server icon.
pub fn favicon_data_url(image: &[u8]) -> (r: String)
    ensures
        r@ == PNG_DATA_URL_PREFIX@ + base64_of(image@),
{
    let mut url = String::from_str(PNG_DATA_URL_PREFIX);
    base64_append(image, &mut url);
    url
}

/// A player who has logged in.
#[derive(Debug, Clone)]
pub struct Player {
    pub username: String,
    pub uuid: u128,
}

/// A game version: its name and protocol number. Versions compare by
/// protocol number alone.
#[derive(Debug, Clone, Copy)]
pub struct Version {
    pub name: &'static str,
    pub protocol_version: u32,
}

/// The protocol revision this server speaks.
pub const PROTOCOL_VERSION: u32 = 756;

impl Version {
    /// The version this server speaks: 1.17.1, protocol 756.
    pub fn current() -> (r: Version)
        ensures
            r.name@ == "1.17.1"@,
            r.protocol_version == PROTOCOL_VERSION,
    {
        Version { name: "1.17.1", protocol_version: PROTOCOL_VERSION }
    }

    /// Whether two versions have the same protocol number.
    pub fn eq(&self, other: &Version) -> (r: bool)
        ensures
            r == (self.protocol_version == other.protocol_version),
    {
        self.protocol_version == other.protocol_version
    }

    /// Orders versions by protocol number: -1, 0 or 1.
    pub fn cmp(&self, other: &Version) -> (r: i8)
        ensures
            r == -1 <==> self.protocol_version < other.protocol_version,
            r == 0 <==> self.protocol_version == other.protocol_version,
            r == 1 <==> self.protocol_version > other.protocol_version,
    {
        if self.protocol_version < other.protocol_version {
            -1
        } else if self.protocol_version == other.protocol_version {
            0
        } else {
            1
        }
    }
}

/// The most players a status reply lists by name.
pub const STATUS_SAMPLE_SIZE: usize = 5;

/// What a status reply reports.
#[derive(Debug, Clone)]
pub struct StatusSnapshot {
    pub version_name: &'static str,
    pub protocol: u32,
    pub max_players: usize,
    pub online: usize,
    pub sample: Vec<Player>,
    pub motd: String,
    pub favicon: Option<String>,
}

/// The server's state: its settings, its version, the players in join order,
/// and the icon data URL if one was loaded.
pub struct Server {
    pub config: Config,
    pub version: Version,
    pub players: Vec<Player>,
    pub favicon: Option<String>,
}

impl Server {
    /// A server with no players yet.
    pub fn new(config: Config, favicon: Option<String>) -> (r: Server)
        ensures
            r.players@.len() == 0,
            r.version.protocol_version == PROTOCOL_VERSION,
            r.version.name@ == "1.17.1"@,
            r.config.online_mode == config.online_mode,
            r.config.max_players == config.max_players,
            r.config.motd@ == config.motd@,
            r.config.favicon_path@ == config.favicon_path@,
            r.favicon == favicon,
    {
        Server { config, version: Version::current(), players: Vec::new(), favicon }
    }

    /// Adds a player who has joined; the roster keeps join order and does
    /// not remove duplicates.
    pub fn join_game(&mut self, player: Player)
        ensures
            final(self).players@ == old(self).players@.push(player),
            final(self).config.max_players == old(self).config.max_players,
    {
        self.players.push(player);
    }

    /// The status snapshot taken now: the version, the player limit, how
    /// many players have joined and the first five of them, the message of
    /// the day and the icon.
    pub fn status(&self) -> (r: StatusSnapshot)
        ensures
            r.protocol == self.version.protocol_version,
            r.max_players == self.config.max_players,
            r.online == self.players@.len(),
            r.sample@.len() == if self.players@.len() < STATUS_SAMPLE_SIZE {
                self.players@.len()
            } else {
                STATUS_SAMPLE_SIZE as nat
            },
            forall|i: int|
                0 <= i < r.sample@.len() ==> (#[trigger] r.sample@[i]).uuid == self.players@[i].uuid
                    && r.sample@[i].username@ == self.players@[i].username@,
            r.motd@ == self.config.motd@,
            r.version_name == self.version.name,
            match (r.favicon, self.favicon) {
                (Some(a), Some(b)) => a@ == b@,
                (None, None) => true,
                _ => false,
            },
    {
        let mut sample: Vec<Player> = Vec::new();
        let mut k: usize = 0;
        while k < self.players.len() && k < STATUS_SAMPLE_SIZE
            invariant
                k <= self.players@.len(),
                k <= STATUS_SAMPLE_SIZE,
                sample@.len() == k,
                forall|i: int|
                    0 <= i < k ==> (#[trigger] sample@[i]).uuid == self.players@[i].uuid
                        && sample@[i].username@ == self.players@[i].username@,
            decreases self.players@.len() - k,
        {
            let p = &self.players[k];
            sample.push(Player { username: p.username.clone(), uuid: p.uuid });
            k = k + 1;
        }
        StatusSnapshot {
            version_name: self.version.name,
            protocol: self.version.protocol_version,
            max_players: self.config.max_players,
            online: self.players.len(),
            sample,
            motd: self.config.motd.clone(),
            favicon: match &self.favicon {
                Some(f) => Some(f.clone()),
                None => None,
            },
        }
    }
}

} // verus!
