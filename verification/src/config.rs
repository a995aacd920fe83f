//! The service's configuration and how it is assembled from the values
//! of its environment variables.

use vstd::prelude::*;

verus! {

/// The service's configuration.
pub struct AppConfig {
    pub vmbfcoreapi_imgproc_mkey: String,
    pub vmbfcoreapi_imgproc_muid: String,
    pub database_url: String,
    pub host: String,
    pub port: String,
    pub working_dir: String,
}

/// One of the environment variables the configuration is read from.
#[derive(PartialEq, Eq, Structural, Clone, Copy, Debug)]
pub enum ConfigVar {
    Mkey,
    Muid,
    DatabaseUrl,
    Host,
    Port,
    WorkingDir,
}

impl ConfigVar {
    /// The variable's name in the environment.
    pub fn name(&self) -> (r: &'static str)
        ensures
            r@ == match *self {
                ConfigVar::Mkey => "VMBFCOREAPI_IMGPROC_MKEY"@,
                ConfigVar::Muid => "VMBFCOREAPI_IMGPROC_MUID"@,
                ConfigVar::DatabaseUrl => "DATABASE_URL"@,
                ConfigVar::Host => "HOST"@,
                ConfigVar::Port => "PORT"@,
                ConfigVar::WorkingDir => "WORKING_DIR"@,
            },
    {
        match *self {
            ConfigVar::Mkey => "VMBFCOREAPI_IMGPROC_MKEY",
            ConfigVar::Muid => "VMBFCOREAPI_IMGPROC_MUID",
            ConfigVar::DatabaseUrl => "DATABASE_URL",
            ConfigVar::Host => "HOST",
            ConfigVar::Port => "PORT",
            ConfigVar::WorkingDir => "WORKING_DIR",
        }
    }
}

/// The first unset variable, in the order the configuration reads them.
pub open spec fn first_missing(
    mkey: Option<String>,
    muid: Option<String>,
    database_url: Option<String>,
    host: Option<String>,
    port: Option<String>,
    working_dir: Option<String>,
) -> Option<ConfigVar> {
    if mkey is None {
        Some(ConfigVar::Mkey)
    } else if muid is None {
        Some(ConfigVar::Muid)
    } else if database_url is None {
        Some(ConfigVar::DatabaseUrl)
    } else if host is None {
        Some(ConfigVar::Host)
    } else if port is None {
        Some(ConfigVar::Port)
    } else if working_dir is None {
        Some(ConfigVar::WorkingDir)
    } else {
        None
    }
}

impl AppConfig {
    /// Assembles the configuration from the values of its variables
    /// (`None` for an unset one), read in the order of the fields. Every
    /// variable is required: the first unset one is reported.
    pub fn from_values(
        mkey: Option<String>,
        muid: Option<String>,
        database_url: Option<String>,
        host: Option<String>,
        port: Option<String>,
        working_dir: Option<String>,
    ) -> (r: Result<AppConfig, ConfigVar>)
        ensures
            match first_missing(mkey, muid, database_url, host, port, working_dir) {
                Some(var) => r == Err::<AppConfig, ConfigVar>(var),
                None => r matches Ok(c) && c == (AppConfig {
                    vmbfcoreapi_imgproc_mkey: mkey->0,
                    vmbfcoreapi_imgproc_muid: muid->0,
                    database_url: database_url->0,
                    host: host->0,
                    port: port->0,
                    working_dir: working_dir->0,
                }),
            },
    {
        let vmbfcoreapi_imgproc_mkey = match mkey {
            Some(v) => v,
            None => return Err(ConfigVar::Mkey),
        };
        let vmbfcoreapi_imgproc_muid = match muid {
            Some(v) => v,
            None => return Err(ConfigVar::Muid),
        };
        let database_url = match database_url {
            Some(v) => v,
            None => return Err(ConfigVar::DatabaseUrl),
        };
        let host = match host {
            Some(v) => v,
            None => return Err(ConfigVar::Host),
        };
        let port = match port {
            Some(v) => v,
            None => return Err(ConfigVar::Port),
        };
        let working_dir = match working_dir {
            Some(v) => v,
            None => return Err(ConfigVar::WorkingDir),
        };
        Ok(AppConfig {
            vmbfcoreapi_imgproc_mkey,
            vmbfcoreapi_imgproc_muid,
            database_url,
            host,
            port,
            working_dir,
        })
    }

    /// The address the server binds to: `host:port`.
    pub fn bind_address(&self) -> (r: String)
        ensures
            r@ == self.host@ + ":"@ + self.port@,
    {
        let with_colon = self.host.clone().concat(":");
        with_colon.concat(self.port.as_str())
    }
}

} // verus!
