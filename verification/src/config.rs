//! The immutable run configuration, shared read-only by every worker, and
//! the connection URL it determines. Reading the configuration file and
//! opening the connection are the surrounding binary's work.

use vstd::prelude::*;
use vstd::string::StrSliceExecFns;
use vstd::string::StringExecFns;

verus! {

/// Database connection parameters and the target table.
#[derive(Debug, Clone)]
pub struct DbConfig {
    pub username: String,
    pub password: String,
    pub db_name: String,
    pub table_name: String,
    pub port: String,
    pub host: String,
}

/// The ordered column subsets the generator works with: the aggregated
/// columns, the selected columns, and the group columns whose range
/// collapses to a point.
#[derive(Debug, Clone)]
pub struct GeneratorFields {
    pub agg_fields: Vec<i32>,
    pub select_fields: Vec<i32>,
    pub group_fields: Vec<i32>,
}

/// The distribution regimes: one (mean, standard deviation) vector pair per
/// output file set, indexed by selected-column position. Each entry is a
/// double-precision bit pattern.
#[derive(Debug, Clone)]
pub struct GeneratorNormal {
    pub means: Vec<Vec<u64>>,
    pub std_devs: Vec<Vec<u64>>,
}

/// The generator's column choices and distribution regimes.
#[derive(Debug, Clone)]
pub struct GeneratorConfig {
    pub fields: GeneratorFields,
    pub normal: GeneratorNormal,
}

/// The whole run configuration.
#[derive(Debug, Clone)]
pub struct Config {
    pub db: DbConfig,
    pub generator: GeneratorConfig,
}

impl Config {
    /// The connection URL the database client is opened with: the password
    /// and its separating colon appear exactly when a password is
    /// configured.
    pub fn connection_url(&self) -> (r: String)
        ensures
            self.db.password@.len() == 0 ==> r@ == "postgresql://"@ + self.db.username@
                + "@"@ + self.db.host@ + ":"@ + self.db.port@ + "/"@ + self.db.db_name@,
            self.db.password@.len() > 0 ==> r@ == "postgresql://"@ + self.db.username@
                + ":"@ + self.db.password@ + "@"@ + self.db.host@ + ":"@ + self.db.port@
                + "/"@ + self.db.db_name@,
    {
        let mut url = String::from_str("postgresql://");
        url.append(self.db.username.as_str());
        if self.db.password.as_str().unicode_len() > 0 {
            url.append(":");
            url.append(self.db.password.as_str());
        }
        url.append("@");
        url.append(self.db.host.as_str());
        url.append(":");
        url.append(self.db.port.as_str());
        url.append("/");
        url.append(self.db.db_name.as_str());
        url
    }
}

} // verus!
