//! Boot-time configuration: the static record that parameterizes the
//! listener and the world at startup.  Reading and parsing the
//! configuration file happens outside the library; these are the plain
//! values it hands over, with their defaults.

use vstd::prelude::*;
use vstd::string::StringExecFns;

verus! {

/// Network parameters of the listener.
#[derive(Clone, Debug)]
pub struct NetworkConfig {
    pub host: String,
    pub port: u16,
    pub max_players: u32,
    pub tick_rate: u32,
}

/// Parameters of the single world.
#[derive(Clone, Debug)]
pub struct WorldConfig {
    pub name: String,
    pub max_players_per_zone: u32,
    pub save_interval: u64,
}

/// Game-side configuration.
#[derive(Clone, Debug)]
pub struct GameConfig {
    pub world: WorldConfig,
}

/// Log level and format.
#[derive(Clone, Debug)]
pub struct LoggingConfig {
    pub level: String,
    pub format: String,
}

/// Everything the server needs at boot.
#[derive(Clone, Debug)]
pub struct ServerConfig {
    pub server: NetworkConfig,
    pub game: GameConfig,
    pub logging: LoggingConfig,
}

impl Default for ServerConfig {
    /// The configuration used when no file overrides it.
    fn default() -> (r: Self)
        ensures
            r.server.host@ == "127.0.0.1"@,
            r.server.port == 8080,
            r.server.max_players == 1000,
            r.server.tick_rate == 60,
            r.game.world.name@ == "Aethelgard"@,
            r.game.world.max_players_per_zone == 100,
            r.game.world.save_interval == 300,
            r.logging.level@ == "info"@,
            r.logging.format@ == "json"@,
    {
        ServerConfig {
            server: NetworkConfig {
                host: String::from_str("127.0.0.1"),
                port: 8080,
                max_players: 1000,
                tick_rate: 60,
            },
            game: GameConfig {
                world: WorldConfig {
                    name: String::from_str("Aethelgard"),
                    max_players_per_zone: 100,
                    save_interval: 300,
                },
            },
            logging: LoggingConfig {
                level: String::from_str("info"),
                format: String::from_str("json"),
            },
        }
    }
}

} // verus!
