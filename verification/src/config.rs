//! Server configuration: which file extensions are handled, the command
//! that starts the language server, and the workspace root it runs in.

use vstd::prelude::*;
use vstd::string::*;
use crate::args::ServerSpec;
use crate::utils::str_eq;

verus! {

#[derive(Debug)]
pub struct Config {
    pub server: ServerConfig,
}

#[derive(Debug)]
pub struct ServerConfig {
    pub extensions: Vec<String>,
    pub command: Vec<String>,
    pub root_dir: String,
}

/// Why a configuration is rejected.
#[derive(Clone, Copy, Debug, PartialEq, Eq, Structural)]
pub enum ConfigError {
    /// The server has no extensions.
    NoExtensions,
    /// The server has an empty command.
    EmptyCommand,
}

impl Config {
    /// Builds a configuration from a command-line server specification;
    /// the root directory defaults to the current one.
    pub fn from_server_spec(spec: ServerSpec) -> (r: Result<Config, ConfigError>)
        ensures
            match r {
                Ok(c) => spec.extensions@.len() > 0 && spec.command@.len() > 0
                    && c.server.extensions == spec.extensions && c.server.command == spec.command
                    && c.server.root_dir@ == "."@,
                Err(e) => (e == ConfigError::NoExtensions && spec.extensions@.len() == 0) || (e
                    == ConfigError::EmptyCommand && spec.extensions@.len() > 0
                    && spec.command@.len() == 0),
            },
    {
        let server = ServerConfig {
            extensions: spec.extensions,
            command: spec.command,
            root_dir: String::from_str("."),
        };
        let config = Config { server };
        match config.validate() {
            Ok(()) => Ok(config),
            Err(e) => Err(e),
        }
    }

    /// A configuration is valid exactly when it names at least one
    /// extension and a nonempty command; an empty extension list is
    /// reported before an empty command.
    pub fn validate(&self) -> (r: Result<(), ConfigError>)
        ensures
            match r {
                Ok(()) => self.server.extensions@.len() > 0 && self.server.command@.len() > 0,
                Err(e) => (e == ConfigError::NoExtensions && self.server.extensions@.len() == 0)
                    || (e == ConfigError::EmptyCommand && self.server.extensions@.len() > 0
                    && self.server.command@.len() == 0),
            },
    {
        if self.server.extensions.len() == 0 {
            return Err(ConfigError::NoExtensions);
        }
        if self.server.command.len() == 0 {
            return Err(ConfigError::EmptyCommand);
        }
        Ok(())
    }

    /// Whether this server handles files with the given extension.
    pub fn has_extension(&self, extension: &str) -> (r: bool)
        ensures
            r == exists|k: int|
                0 <= k < self.server.extensions@.len() && self.server.extensions@[k]@
                    == extension@,
    {
        let mut i: usize = 0;
        while i < self.server.extensions.len()
            invariant
                0 <= i <= self.server.extensions@.len(),
                forall|k: int| 0 <= k < i ==> self.server.extensions@[k]@ != extension@,
            decreases self.server.extensions@.len() - i,
        {
            if str_eq(self.server.extensions[i].as_str(), extension) {
                return true;
            }
            i = i + 1;
        }
        false
    }
}

/// The root directory resolved against `base`: an absolute root stands by
/// itself; a relative one is appended to `base` behind a separator (none
/// added behind a `base` that already ends in one, or is empty).
pub open spec fn resolved_root(root_dir: Seq<char>, base: Seq<char>) -> Seq<char> {
    if root_dir.len() > 0 && root_dir[0] == '/' {
        root_dir
    } else if base.len() == 0 {
        root_dir
    } else if base.last() == '/' {
        base + root_dir
    } else {
        base + "/"@ + root_dir
    }
}

impl ServerConfig {
    /// Resolves the configured root directory against a base directory.
    /// Making the result canonical (and failing where it does not exist)
    /// is left to the caller, with the file system at hand.
    pub fn resolve_root_dir(&self, base: &str) -> (r: String)
        ensures
            r@ == resolved_root(self.root_dir@, base@),
    {
        let root = self.root_dir.as_str();
        let rlen = root.unicode_len();
        if rlen > 0 && root.get_char(0) == '/' {
            return self.root_dir.clone();
        }
        let blen = base.unicode_len();
        if blen == 0 {
            return self.root_dir.clone();
        }
        let mut out = String::from_str(base);
        if base.get_char(blen - 1) != '/' {
            out.append("/");
        }
        out.append(root);
        out
    }
}

} // verus!
