//! Server configuration: paths, bind address and log level, with pure
//! construction and validation; reading the environment and probing the
//! file system stay with the embedding program, which passes what it saw.

use vstd::prelude::*;

verus! {

/// The engine's runtime configuration.
pub struct ServerConfig {
    /// Database file path or connection string.
    pub database_path: String,
    /// Search index directory path.
    pub index_path: String,
    /// Server bind address.
    pub bind_address: String,
    /// Log level.
    pub log_level: String,
}

impl ServerConfig {
    /// A configuration with explicit paths and the default bind address
    /// and log level.
    pub fn new(database_path: String, index_path: String) -> (r: ServerConfig)
        ensures
            r.database_path == database_path,
            r.index_path == index_path,
            r.bind_address@ == "0.0.0.0:8080"@,
            r.log_level@ == "info"@,
    {
        ServerConfig {
            database_path,
            index_path,
            bind_address: "0.0.0.0:8080".to_owned(),
            log_level: "info".to_owned(),
        }
    }

    /// Validates the configuration against what the embedding program saw
    /// of the file system: the parent directory of each path must exist.
    /// Succeeds exactly when both do.
    pub fn validate(&self, database_dir_exists: bool, index_dir_exists: bool) -> (r: Result<
        (),
        String,
    >)
        ensures
            r is Ok <==> database_dir_exists && index_dir_exists,
    {
        if !database_dir_exists {
            return Err("database directory does not exist".to_owned());
        }
        if !index_dir_exists {
            return Err("index directory parent does not exist".to_owned());
        }
        Ok(())
    }
}

impl Default for ServerConfig {
    /// The default configuration: the standard data paths, the default
    /// bind address and log level.
    fn default() -> (r: ServerConfig)
        ensures
            r.database_path@ == "data/database/kalima.db"@,
            r.index_path@ == "data/search-index"@,
            r.bind_address@ == "0.0.0.0:8080"@,
            r.log_level@ == "info"@,
    {
        ServerConfig {
            database_path: "data/database/kalima.db".to_owned(),
            index_path: "data/search-index".to_owned(),
            bind_address: "0.0.0.0:8080".to_owned(),
            log_level: "info".to_owned(),
        }
    }
}

} // verus!
