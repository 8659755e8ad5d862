use vstd::prelude::*;
use vstd::string::StringExecFns;

verus! {

/// One manager allowed to submit signing requests: the static public key
/// its transport connection must authenticate with.
#[derive(Clone, Copy, Debug, PartialEq, Eq)]
pub struct ManagerConfig {
    pub noise_pubkey: [u8; 32],
}

/// The address the daemon listens on, as plain values: four address octets
/// and a port.
#[derive(Clone, Copy, Debug, PartialEq, Eq)]
pub struct ListenAddr {
    pub octets: [u8; 4],
    pub port: u16,
}

/// The daemon's configuration, after the surrounding shell has read its
/// configuration file and resolved the data directory (applying the default
/// location when none was configured).
#[derive(Debug)]
pub struct Config {
    pub managers: Vec<ManagerConfig>,
    pub listen: ListenAddr,
    pub data_dir: String,
}

/// The daemon's static secret key for the transport channel.  Loaded from
/// the key file at startup, or freshly generated on first run.
#[derive(Clone, Copy, Debug, PartialEq, Eq)]
pub struct NoiseKey {
    pub bytes: [u8; 32],
}

impl NoiseKey {
    /// A usable key is not all zeroes: the all-zero value is what an
    /// unwritten or truncated key file reads back as, never a real key.
    pub open spec fn is_well_formed(self) -> bool {
        exists|i: int| 0 <= i < self.bytes@.len() && self.bytes@[i] != 0
    }

    /// Decides whether loaded key material is usable.  The daemon must not
    /// start when this returns false.
    pub fn check_well_formed(&self) -> (r: bool)
        ensures
            r == self.is_well_formed(),
    {
        let mut i: usize = 0;
        while i < 32
            invariant
                0 <= i <= 32,
                forall|j: int| 0 <= j < i ==> self.bytes@[j] == 0,
            decreases 32 - i,
        {
            if self.bytes[i] != 0 {
                proof {
                    assert(0 <= i < self.bytes@.len() && self.bytes@[i as int] != 0);
                }
                return true;
            }
            i = i + 1;
        }
        false
    }
}

/// An error establishing the daemon's global state at startup.  Each
/// variant carries the text of the underlying failure, as reported by the
/// shell that performed the file work.
#[derive(Debug)]
pub enum CosignerDError {
    NoiseKeyError(String),
    ConfigError(String),
    DatadirCreation(String),
}

impl CosignerDError {
    /// The displayed form of this error.
    pub open spec fn message_spec(self) -> Seq<char> {
        match self {
            CosignerDError::NoiseKeyError(e) => "Noise key initialization error: '"@ + e@ + "'"@,
            CosignerDError::ConfigError(e) => "Configuration error: '"@ + e@ + "'"@,
            CosignerDError::DatadirCreation(e) => "Creating data directory: '"@ + e@ + "'"@,
        }
    }

    /// Renders this error for display.
    pub fn message(&self) -> (r: String)
        ensures
            r@ == self.message_spec(),
    {
        match self {
            CosignerDError::NoiseKeyError(e) => {
                let mut s = String::from_str("Noise key initialization error: '");
                s.append(e.as_str());
                s.append("'");
                s
            },
            CosignerDError::ConfigError(e) => {
                let mut s = String::from_str("Configuration error: '");
                s.append(e.as_str());
                s.append("'");
                s
            },
            CosignerDError::DatadirCreation(e) => {
                let mut s = String::from_str("Creating data directory: '");
                s.append(e.as_str());
                s.append("'");
                s
            },
        }
    }
}

/// The daemon's global state: everything a request handler reads besides
/// the ledger.  Built once at startup and immutable from then on.
#[derive(Debug)]
pub struct CosignerD {
    pub managers: Vec<ManagerConfig>,
    pub noise_privkey: NoiseKey,
    pub listen: ListenAddr,
    /// All the daemon's files live under this directory.
    pub data_dir: String,
}

impl CosignerD {
    /// Assembles the global state from the loaded configuration and key
    /// material.  The surrounding shell has already created the data
    /// directory and read or generated the key file; a key that reads back
    /// all-zero must be rejected before this point (the daemon refuses to
    /// start), so a well-formed key is required here.
    pub fn from_config(config: Config, noise_privkey: NoiseKey) -> (d: CosignerD)
        requires
            noise_privkey.is_well_formed(),
        ensures
            d.managers@ == config.managers@,
            d.noise_privkey == noise_privkey,
            d.listen == config.listen,
            d.data_dir@ == config.data_dir@,
    {
        CosignerD {
            managers: config.managers,
            noise_privkey,
            listen: config.listen,
            data_dir: config.data_dir,
        }
    }

    /// The path of `file_name` inside the data directory.
    fn file_from_datadir(&self, file_name: &str) -> (r: String)
        ensures
            r@ == self.data_dir@ + "/"@ + file_name@,
    {
        let mut r = String::from_str(self.data_dir.as_str());
        r.append("/");
        r.append(file_name);
        r
    }

    /// Where the daemon writes its log.
    pub fn log_file(&self) -> (r: String)
        ensures
            r@ == self.data_dir@ + "/"@ + "log"@,
    {
        self.file_from_datadir("log")
    }

    /// Where the daemon records its process id.
    pub fn pid_file(&self) -> (r: String)
        ensures
            r@ == self.data_dir@ + "/"@ + "cosignerd.pid"@,
    {
        self.file_from_datadir("cosignerd.pid")
    }

    /// Where the outpoint ledger is persisted.
    pub fn db_file(&self) -> (r: String)
        ensures
            r@ == self.data_dir@ + "/"@ + "cosignerd.sqlite3"@,
    {
        self.file_from_datadir("cosignerd.sqlite3")
    }
}

} // verus!
