//! The resolved configuration a run works under: where packages are
//! installed, where downloads are cached, where the registry lives, whether
//! this is a dry run, and the opened registry itself. The shell resolves
//! these values once at startup and threads the configuration through every
//! call; no function reads the environment on its own.

use vstd::prelude::*;

verus! {

use vstd::string::StringExecFns;

use crate::registry::Db;

/// The configuration of one run.
#[derive(Debug)]
pub struct Config {
    pub install_position: String,
    pub cache_position: String,
    pub db_path: String,
    pub dry_run: bool,
    pub db: Db,
}

impl Config {
    /// Assemble a configuration from resolved values and an opened registry.
    pub fn new(
        install_position: String,
        cache_position: String,
        db_path: String,
        dry_run: bool,
        db: Db,
    ) -> (r: Config)
        ensures
            r.install_position == install_position,
            r.cache_position == cache_position,
            r.db_path == db_path,
            r.dry_run == dry_run,
            r.db == db,
    {
        Config { install_position, cache_position, db_path, dry_run, db }
    }

    /// The opened registry.
    pub fn db(&self) -> (r: &Db)
        ensures
            *r == self.db,
    {
        &self.db
    }

    /// The directory packages' own files are placed under.
    pub fn app_path(&self) -> (r: String)
        ensures
            r@ == self.install_position@ + "/app"@,
    {
        let mut out = self.install_position.clone();
        out.append("/app");
        out
    }

    /// The directory invocation shims are placed under.
    pub fn bin_path(&self) -> (r: String)
        ensures
            r@ == self.install_position@ + "/bin"@,
    {
        let mut out = self.install_position.clone();
        out.append("/bin");
        out
    }

    /// The download cache directory.
    pub fn cache_path(&self) -> (r: &str)
        ensures
            r@ == self.cache_position@,
    {
        self.cache_position.as_str()
    }
}

} // verus!
