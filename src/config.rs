use vstd::prelude::*;

verus! {

/// The server's settings, as read from its configuration file.
pub struct Config {
    pub server: Server,
    pub database: Database,
    pub influx: Option<Influx>,
}

/// Where the server listens.
pub struct Server {
    pub address: String,
}

/// Where the database file lives.
pub struct Database {
    pub path: String,
}

/// Where metrics are pushed, if anywhere.
pub struct Influx {
    pub url: String,
    pub org: String,
    pub bucket: String,
    pub token: String,
}

} // verus!
