//! Settings of a database server.
use vstd::prelude::*;
use vstd::string::*;

verus! {

/// Settings of a database server.
pub struct Config {
    /// The name of the database.
    pub name: String,
    /// The directory where database files are stored.
    pub data_dir: String,
    /// The host address to bind to.
    pub host: String,
    /// The port to bind to.
    pub port: u16,
    /// Maximum number of connections.
    pub max_connections: usize,
    /// Enable HTTP logging.
    pub log_http: bool,
    /// Log level (trace, debug, info, warn, error).
    pub log_level: String,
}

impl Default for Config {
    /// The settings used where none is given.
    fn default() -> (r: Self)
        ensures
            r.name@ == "zachdb"@,
            r.data_dir@ == "./zachdb-data"@,
            r.host@ == "127.0.0.1"@,
            r.port == 7878,
            r.max_connections == 100,
            !r.log_http,
            r.log_level@ == "info"@,
    {
        Config {
            name: String::from_str("zachdb"),
            data_dir: String::from_str("./zachdb-data"),
            host: String::from_str("127.0.0.1"),
            port: 7878,
            max_connections: 100,
            log_http: false,
            log_level: String::from_str("info"),
        }
    }
}

} // verus!
