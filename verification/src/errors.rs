//! The configuration error: what went wrong with the file, carried as
//! plain text so that the core can report it.

use vstd::prelude::*;

verus! {

broadcast use vstd::seq::group_seq_axioms;

/// Why a configuration could not be loaded: the file was unreadable, or
/// its contents were not valid YAML. The path and the underlying
/// diagnostic are carried as text.
pub enum ConfigError {
    Io { path: String, detail: String },
    Yaml { path: String, detail: String },
}

impl ConfigError {
    /// A file-access failure at the path.
    pub fn io(path: String, detail: String) -> (r: ConfigError)
        ensures
            r is Io && r->Io_path@ == path@ && r->Io_detail@ == detail@,
    {
        ConfigError::Io { path, detail }
    }

    /// A YAML failure in the file at the path.
    pub fn yaml(path: String, detail: String) -> (r: ConfigError)
        ensures
            r is Yaml && r->Yaml_path@ == path@ && r->Yaml_detail@ == detail@,
    {
        ConfigError::Yaml { path, detail }
    }

    /// The diagnostic line: which file failed, and how.
    pub fn message(&self) -> (r: String)
        ensures
            match *self {
                ConfigError::Io { path, detail } => r@ == "Failed to access config file at '"@
                    + path@ + "': "@ + detail@,
                ConfigError::Yaml { path, detail } => r@ == "Invalid YAML in config file '"@
                    + path@ + "': "@ + detail@,
            },
    {
        match self {
            ConfigError::Io { path, detail } => {
                let mut s = "Failed to access config file at '".to_owned();
                s.append(path.as_str());
                s.append("': ");
                s.append(detail.as_str());
                s
            },
            ConfigError::Yaml { path, detail } => {
                let mut s = "Invalid YAML in config file '".to_owned();
                s.append(path.as_str());
                s.append("': ");
                s.append(detail.as_str());
                s
            },
        }
    }
}

} // verus!
